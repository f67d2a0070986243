//! Exact fixed-point arithmetic used by the analysis: a base-2 logarithm in
//! Q16 fixed point, the cents measure of musical distance, the confidence
//! derived from it, the low-frequency bonus, and the candidate score.
//!
//! All quantities are integers: frequencies in milli-hertz, confidences and
//! bonuses in parts per million, logarithms in units of 1/65536. The
//! logarithm is computed by the classic squaring method: normalise the ratio
//! into [1, 2), then square it sixteen times, shifting out one result bit per
//! squaring. Its defining recurrence is the specification; the lemmas below
//! establish the facts the rest of the library needs: monotonicity, exactness
//! on powers of two, and bounds.

use vstd::arithmetic::div_mod::{
    lemma_div_is_ordered, lemma_div_is_ordered_by_denominator, lemma_div_multiples_vanish,
    lemma_multiply_divide_lt,
};
use vstd::arithmetic::power2::{lemma_pow2_adds, lemma_pow2_pos, lemma_pow2_strictly_increases};
use vstd::prelude::*;

verus! {

/// One, in Q32 fixed point.
pub const Q32: u64 = 0x1_0000_0000;

/// One, in Q16 fixed point.
pub const Q16: u64 = 0x1_0000;

/// One, in parts per million.
pub const PPM_ONE: u32 = 1_000_000;

/// Floor of the base-2 logarithm of `n / d`.
pub open spec fn lg_floor(n: int, d: int) -> nat
    recommends
        1 <= d <= n,
    decreases n - d,
    when 1 <= d <= n
{
    if 2 * d > n {
        0
    } else {
        1 + lg_floor(n, 2 * d)
    }
}

/// The ratio `n / d` scaled so that its integer power-of-two part is removed:
/// the Q32 representation of `n / (d * 2^lg_floor(n, d))`, a value in [1, 2).
pub open spec fn norm_q32(n: int, d: int) -> int
    recommends
        1 <= d <= n,
{
    (n * (Q32 as int)) / (d * (pow2(lg_floor(n, d)) as int))
}

/// The first `m` fraction bits of the base-2 logarithm of the Q32 value `v`,
/// read as an `m`-bit integer: square the value, take the carry bit, repeat.
pub open spec fn frac_bits(v: int, m: nat) -> int
    decreases m,
{
    if m == 0 {
        0
    } else {
        let s = (v * v) / (Q32 as int);
        if s >= 2 * (Q32 as int) {
            pow2((m - 1) as nat) + frac_bits(s / 2, (m - 1) as nat)
        } else {
            frac_bits(s, (m - 1) as nat)
        }
    }
}

/// The base-2 logarithm of `n / d` in Q16 fixed point, rounded down:
/// integer part from `lg_floor`, sixteen fraction bits from `frac_bits`.
pub open spec fn spec_log2_q16(n: int, d: int) -> int
    recommends
        1 <= d <= n,
{
    lg_floor(n, d) * (Q16 as int) + frac_bits(norm_q32(n, d), 16)
}

use vstd::arithmetic::power2::pow2;

/// The concrete powers of two this module reasons with.
proof fn pow2_basics()
    ensures
        pow2(0) == 1,
        pow2(1) == 2,
        pow2(4) == 16,
        pow2(15) == 0x8000,
        pow2(16) == 0x1_0000,
        pow2(32) == 0x1_0000_0000,
{
    vstd::arithmetic::power2::lemma2_to64();
}

/// `lg_floor` is exactly characterised by the bracketing
/// `d * 2^k <= n < d * 2^(k+1)`.
pub proof fn lemma_lg_floor_bounds(n: int, d: int)
    requires
        1 <= d <= n,
    ensures
        d * pow2(lg_floor(n, d)) <= n,
        n < d * pow2(lg_floor(n, d) + 1),
    decreases n - d,
{
    if 2 * d > n {
        pow2_basics();
        assert(lg_floor(n, d) == 0);
        assert(d * pow2(0) == d && d * pow2(1) == 2 * d) by (nonlinear_arith)
            requires
                pow2(0) == 1,
                pow2(1) == 2,
        ;
    } else {
        assert(lg_floor(n, d) == 1 + lg_floor(n, 2 * d));
        lemma_lg_floor_bounds(n, 2 * d);
        let k = lg_floor(n, 2 * d);
        lemma_pow2_adds(1, k);
        lemma_pow2_adds(1, k + 1);
        assert(pow2(1) == 2) by {
            pow2_basics();
        }
        assert((2 * d) * pow2(k) == d * (2 * pow2(k))) by (nonlinear_arith);
        assert((2 * d) * pow2(k + 1) == d * (2 * pow2(k + 1))) by (nonlinear_arith);
    }
}

/// Any `k` with the bracketing property is `lg_floor`.
pub proof fn lemma_lg_floor_unique(n: int, d: int, k: nat)
    requires
        1 <= d,
        d * pow2(k) <= n,
        n < d * pow2(k + 1),
    ensures
        lg_floor(n, d) == k,
{
    lemma_pow2_pos(k);
    assert(d * 1 <= d * pow2(k)) by (nonlinear_arith)
        requires
            1 <= d,
            1 <= pow2(k),
    ;
    lemma_lg_floor_bounds(n, d);
    let j = lg_floor(n, d);
    if j < k {
        if j + 1 < k {
            lemma_pow2_strictly_increases(j + 1, k);
        }
        assert(pow2(j + 1) <= pow2(k));
        assert(d * pow2(j + 1) <= d * pow2(k)) by (nonlinear_arith)
            requires
                1 <= d,
                pow2(j + 1) <= pow2(k),
        ;
    } else if j > k {
        if k + 1 < j {
            lemma_pow2_strictly_increases(k + 1, j);
        }
        assert(pow2(k + 1) <= pow2(j));
        assert(d * pow2(k + 1) <= d * pow2(j)) by (nonlinear_arith)
            requires
                1 <= d,
                pow2(k + 1) <= pow2(j),
        ;
    }
}

/// Growing the numerator cannot shrink `lg_floor`.
pub proof fn lemma_lg_floor_mono_num(n1: int, n2: int, d: int)
    requires
        1 <= d <= n1 <= n2,
    ensures
        lg_floor(n1, d) <= lg_floor(n2, d),
{
    let k1 = lg_floor(n1, d);
    let k2 = lg_floor(n2, d);
    lemma_lg_floor_bounds(n1, d);
    lemma_lg_floor_bounds(n2, d);
    if k2 < k1 {
        if k2 + 1 < k1 {
            lemma_pow2_strictly_increases(k2 + 1, k1);
        }
        assert(pow2(k2 + 1) <= pow2(k1));
        assert(d * pow2(k2 + 1) <= d * pow2(k1)) by (nonlinear_arith)
            requires
                1 <= d,
                pow2(k2 + 1) <= pow2(k1),
        ;
    }
}

/// Growing the denominator cannot grow `lg_floor`.
pub proof fn lemma_lg_floor_anti_den(n: int, d1: int, d2: int)
    requires
        1 <= d1 <= d2 <= n,
    ensures
        lg_floor(n, d2) <= lg_floor(n, d1),
{
    let k1 = lg_floor(n, d1);
    let k2 = lg_floor(n, d2);
    lemma_lg_floor_bounds(n, d1);
    lemma_lg_floor_bounds(n, d2);
    if k1 < k2 {
        if k1 + 1 < k2 {
            lemma_pow2_strictly_increases(k1 + 1, k2);
        }
        assert(pow2(k1 + 1) <= pow2(k2));
        assert(d1 * pow2(k1 + 1) <= d2 * pow2(k2)) by (nonlinear_arith)
            requires
                1 <= d1 <= d2,
                pow2(k1 + 1) <= pow2(k2),
        ;
    }
}

/// The normalised ratio lies in [1, 2) in Q32 fixed point.
pub proof fn lemma_norm_range(n: int, d: int)
    requires
        1 <= d <= n,
    ensures
        Q32 <= norm_q32(n, d) < 2 * (Q32 as int),
{
    let k = lg_floor(n, d);
    let m = d * pow2(k);
    lemma_lg_floor_bounds(n, d);
    lemma_pow2_pos(k);
    assert(m >= 1) by (nonlinear_arith)
        requires
            1 <= d,
            1 <= pow2(k),
            m == d * pow2(k),
    ;
    // lower bound: n * Q32 >= m * Q32, so the quotient is at least Q32
    assert(m * (Q32 as int) <= n * (Q32 as int)) by (nonlinear_arith)
        requires
            m <= n,
            0 < (Q32 as int),
    ;
    lemma_div_is_ordered(m * (Q32 as int), n * (Q32 as int), m);
    lemma_div_multiples_vanish(Q32 as int, m);
    assert(m * (Q32 as int) / m == Q32 as int);
    // upper bound: n < 2 * m, so n * Q32 < m * (2 * Q32)
    lemma_pow2_adds(k, 1);
    assert(pow2(1) == 2) by {
        pow2_basics();
    }
    assert(n < 2 * m) by (nonlinear_arith)
        requires
            n < d * pow2(k + 1),
            pow2(k + 1) == pow2(k) * 2,
            m == d * pow2(k),
    ;
    assert(n * (Q32 as int) < m * (2 * (Q32 as int))) by (nonlinear_arith)
        requires
            n < 2 * m,
            0 < (Q32 as int),
    ;
    lemma_multiply_divide_lt(n * (Q32 as int), m, 2 * (Q32 as int));
}

/// One squaring step keeps a Q32 value in [1, 2): the square of `v`,
/// dropped back to Q32, lies in [1, 4), and halving the carry case
/// renormalises it.
proof fn lemma_square_step_range(v: int)
    requires
        Q32 <= v < 2 * (Q32 as int),
    ensures
        Q32 <= (v * v) / (Q32 as int),
        (v * v) / (Q32 as int) < 4 * (Q32 as int),
        ((v * v) / (Q32 as int) >= 2 * (Q32 as int)) ==> Q32 <= ((v * v) / (Q32 as int)) / 2
            < 2 * (Q32 as int),
{
    let q = Q32 as int;
    assert(q * q <= v * v) by (nonlinear_arith)
        requires
            q <= v,
            0 < q,
    ;
    lemma_div_is_ordered(q * q, v * v, q);
    lemma_div_multiples_vanish(q, q);
    assert(v * v < q * (4 * q)) by (nonlinear_arith)
        requires
            0 < q,
            v < 2 * q,
            0 <= v,
    ;
    lemma_multiply_divide_lt(v * v, q, 4 * q);
}

/// The `m` fraction bits, read as an integer, are below `2^m`.
pub proof fn lemma_frac_bits_bound(v: int, m: nat)
    requires
        Q32 <= v < 2 * (Q32 as int),
    ensures
        0 <= frac_bits(v, m) < pow2(m),
    decreases m,
{
    if m == 0 {
        assert(pow2(0) == 1) by {
            pow2_basics();
        }
    } else {
        lemma_square_step_range(v);
        let s = (v * v) / (Q32 as int);
        lemma_pow2_adds((m - 1) as nat, 1);
        assert(pow2(1) == 2) by {
            pow2_basics();
        }
        if s >= 2 * (Q32 as int) {
            lemma_frac_bits_bound(s / 2, (m - 1) as nat);
        } else {
            lemma_frac_bits_bound(s, (m - 1) as nat);
        }
    }
}

/// Fraction bits are monotone in the Q32 value.
pub proof fn lemma_frac_bits_mono(v1: int, v2: int, m: nat)
    requires
        Q32 <= v1 <= v2 < 2 * (Q32 as int),
    ensures
        frac_bits(v1, m) <= frac_bits(v2, m),
    decreases m,
{
    if m > 0 {
        let q = Q32 as int;
        lemma_square_step_range(v1);
        lemma_square_step_range(v2);
        let s1 = (v1 * v1) / q;
        let s2 = (v2 * v2) / q;
        assert(v1 * v1 <= v2 * v2) by (nonlinear_arith)
            requires
                0 <= v1 <= v2,
        ;
        lemma_div_is_ordered(v1 * v1, v2 * v2, q);
        if s1 >= 2 * q {
            // both carry
            lemma_div_is_ordered(s1, s2, 2);
            lemma_frac_bits_mono(s1 / 2, s2 / 2, (m - 1) as nat);
        } else if s2 >= 2 * q {
            // only the larger value carries: its bit alone already dominates
            lemma_frac_bits_bound(s1, (m - 1) as nat);
            lemma_frac_bits_bound(s2 / 2, (m - 1) as nat);
        } else {
            lemma_frac_bits_mono(s1, s2, (m - 1) as nat);
        }
    }
}

/// An exact one has no fraction bits.
pub proof fn lemma_frac_bits_of_one(m: nat)
    ensures
        frac_bits(Q32 as int, m) == 0,
    decreases m,
{
    if m > 0 {
        let q = Q32 as int;
        lemma_div_multiples_vanish(q, q);
        assert((q * q) / q == q);
        lemma_frac_bits_of_one((m - 1) as nat);
    }
}

/// The Q16 logarithm is monotone in the numerator.
pub proof fn lemma_log2_mono_num(n1: int, n2: int, d: int)
    requires
        1 <= d <= n1 <= n2,
    ensures
        spec_log2_q16(n1, d) <= spec_log2_q16(n2, d),
{
    let k1 = lg_floor(n1, d);
    let k2 = lg_floor(n2, d);
    lemma_lg_floor_mono_num(n1, n2, d);
    lemma_norm_range(n1, d);
    lemma_norm_range(n2, d);
    lemma_frac_bits_bound(norm_q32(n1, d), 16);
    lemma_frac_bits_bound(norm_q32(n2, d), 16);
    if k1 == k2 {
        let m = d * (pow2(k1) as int);
        lemma_pow2_pos(k1);
        assert(m >= 1) by (nonlinear_arith)
            requires
                1 <= d,
                1 <= pow2(k1),
                m == d * (pow2(k1) as int),
        ;
        assert(n1 * (Q32 as int) <= n2 * (Q32 as int)) by (nonlinear_arith)
            requires
                n1 <= n2,
                0 < (Q32 as int),
        ;
        lemma_div_is_ordered(n1 * (Q32 as int), n2 * (Q32 as int), m);
        lemma_frac_bits_mono(norm_q32(n1, d), norm_q32(n2, d), 16);
    } else {
        // k1 < k2: the whole fraction part is smaller than one integer step
        assert(pow2(16) == Q16) by {
            pow2_basics();
        }
        assert(k1 * (Q16 as int) + (Q16 as int) <= k2 * (Q16 as int)) by (nonlinear_arith)
            requires
                k1 + 1 <= k2,
                0 < (Q16 as int),
        ;
    }
}

/// The Q16 logarithm is antitone in the denominator.
pub proof fn lemma_log2_anti_den(n: int, d1: int, d2: int)
    requires
        1 <= d1 <= d2 <= n,
    ensures
        spec_log2_q16(n, d2) <= spec_log2_q16(n, d1),
{
    let k1 = lg_floor(n, d1);
    let k2 = lg_floor(n, d2);
    lemma_lg_floor_anti_den(n, d1, d2);
    lemma_norm_range(n, d1);
    lemma_norm_range(n, d2);
    lemma_frac_bits_bound(norm_q32(n, d1), 16);
    lemma_frac_bits_bound(norm_q32(n, d2), 16);
    if k1 == k2 {
        let m1 = d1 * (pow2(k1) as int);
        let m2 = d2 * (pow2(k1) as int);
        lemma_pow2_pos(k1);
        assert(1 <= m1 <= m2) by (nonlinear_arith)
            requires
                1 <= d1 <= d2,
                1 <= pow2(k1),
                m1 == d1 * (pow2(k1) as int),
                m2 == d2 * (pow2(k1) as int),
        ;
        assert(0 <= n * (Q32 as int)) by (nonlinear_arith)
            requires
                0 <= n,
                0 < (Q32 as int),
        ;
        lemma_div_is_ordered_by_denominator(n * (Q32 as int), m1, m2);
        lemma_frac_bits_mono(norm_q32(n, d2), norm_q32(n, d1), 16);
    } else {
        assert(pow2(16) == Q16) by {
            pow2_basics();
        }
        assert(k2 * (Q16 as int) + (Q16 as int) <= k1 * (Q16 as int)) by (nonlinear_arith)
            requires
                k2 + 1 <= k1,
                0 < (Q16 as int),
        ;
    }
}

/// On an exact power-of-two ratio the Q16 logarithm is exact.
pub proof fn lemma_log2_pow2_exact(d: int, k: nat)
    requires
        1 <= d,
    ensures
        spec_log2_q16(d * pow2(k), d) == k * (Q16 as int),
{
    let n = d * (pow2(k) as int);
    lemma_pow2_pos(k);
    lemma_pow2_pos(k + 1);
    lemma_pow2_adds(k, 1);
    assert(pow2(1) == 2) by {
        pow2_basics();
    }
    assert(d * pow2(k) <= n && n < d * pow2(k + 1)) by (nonlinear_arith)
        requires
            1 <= d,
            1 <= pow2(k),
            pow2(k + 1) == pow2(k) * 2,
            n == d * (pow2(k) as int),
    ;
    lemma_lg_floor_unique(n, d, k);
    assert(n >= 1) by (nonlinear_arith)
        requires
            1 <= d,
            1 <= pow2(k),
            n == d * (pow2(k) as int),
    ;
    lemma_div_multiples_vanish(Q32 as int, n);
    assert(norm_q32(n, d) == (n * (Q32 as int)) / n);
    assert(n * (Q32 as int) == (Q32 as int) * n) by (nonlinear_arith);
    assert(norm_q32(n, d) == Q32 as int);
    lemma_frac_bits_of_one(16);
}

/// The Q16 base-2 logarithm of `num / den`, rounded down.
pub fn log2_q16(num: u64, den: u64) -> (r: u64)
    requires
        1 <= den <= num,
    ensures
        r == spec_log2_q16(num as int, den as int),
        r < 64 * (Q16 as u64),
{
    // integer part: double the denominator until it passes the numerator
    let mut k: u64 = 0;
    let mut dshift: u128 = den as u128;
    proof {
        assert(pow2(0) == 1) by {
            pow2_basics();
        }
    }
    while dshift * 2 <= num as u128
        invariant
            1 <= den <= num,
            1 <= dshift,
            dshift == den * pow2(k as nat),
            dshift <= num as u128,
            k <= 64,
        decreases num as int - dshift as int,
    {
        proof {
            lemma_pow2_adds(k as nat, 1);
            pow2_basics();
            assert(den * pow2((k + 1) as nat) == (den * pow2(k as nat)) * 2) by (nonlinear_arith)
                requires
                    pow2((k + 1) as nat) == pow2(k as nat) * pow2(1),
                    pow2(1) == 2,
            ;
            if k >= 64 {
                lemma_pow2_strictly_increases(64, (k + 1) as nat);
                lemma_pow2_64();
                assert(den * pow2((k + 1) as nat) >= pow2(64)) by (nonlinear_arith)
                    requires
                        1 <= den,
                        pow2((k + 1) as nat) >= pow2(64),
                ;
            }
        }
        dshift = dshift * 2;
        k = k + 1;
    }
    proof {
        lemma_pow2_adds(k as nat, 1);
        pow2_basics();
        assert(den * pow2((k + 1) as nat) == (den * pow2(k as nat)) * 2) by (nonlinear_arith)
            requires
                pow2((k + 1) as nat) == pow2(k as nat) * pow2(1),
                pow2(1) == 2,
        ;
        lemma_lg_floor_unique(num as int, den as int, k as nat);
        if k >= 64 {
            lemma_pow2_64();
            if k > 64 {
                lemma_pow2_strictly_increases(64, k as nat);
            }
            assert(den * pow2(k as nat) >= pow2(64)) by (nonlinear_arith)
                requires
                    1 <= den,
                    pow2(k as nat) >= pow2(64),
            ;
            assert(false);
        }
        assert(k <= 63);
    }
    // fraction part: sixteen squaring steps on the normalised ratio
    let v0: u128 = ((num as u128) * (Q32 as u128)) / dshift;
    proof {
        lemma_norm_range(num as int, den as int);
    }
    let mut v: u128 = v0;
    let mut acc: u64 = 0;
    let mut i: usize = 0;
    while i < 16
        invariant
            (Q32 as u128) <= v < 2 * (Q32 as u128),
            acc < pow2(i as nat),
            i <= 16,
            frac_bits(v0 as int, 16) == acc * pow2((16 - i) as nat) + frac_bits(
                v as int,
                (16 - i) as nat,
            ),
            v0 == norm_q32(num as int, den as int),
        decreases 16 - i,
    {
        proof {
            lemma_square_step_range(v as int);
            lemma_pow2_adds((15 - i) as nat, 1);
            pow2_basics();
            lemma_pow2_adds(i as nat, 1);
            if i < 15 {
                lemma_pow2_strictly_increases(i as nat, 15);
            }
            assert(acc < 0x8000);
        }
        let ghost m: nat = (16 - i) as nat;
        let ghost acc_old = acc;
        let ghost v_old = v;
        let s = (v * v) / (Q32 as u128);
        if s >= 2 * (Q32 as u128) {
            v = s / 2;
            acc = acc * 2 + 1;
        } else {
            v = s;
            acc = acc * 2;
        }
        i = i + 1;
        proof {
            let q = Q32 as int;
            let s_spec = (v_old as int * v_old as int) / q;
            assert(s == s_spec);
            assert(pow2(m) == pow2((m - 1) as nat) * 2) by {
                lemma_pow2_adds((m - 1) as nat, 1);
                pow2_basics();
            }
            if s_spec >= 2 * q {
                assert(v as int == s_spec / 2);
                assert(frac_bits(v_old as int, m) == pow2((m - 1) as nat) + frac_bits(
                    v as int,
                    (m - 1) as nat,
                ));
                assert(acc_old * pow2(m) + frac_bits(v_old as int, m) == acc * pow2(
                    (m - 1) as nat,
                ) + frac_bits(v as int, (m - 1) as nat)) by (nonlinear_arith)
                    requires
                        acc == 2 * acc_old + 1,
                        pow2(m) == pow2((m - 1) as nat) * 2,
                        frac_bits(v_old as int, m) == pow2((m - 1) as nat) + frac_bits(
                            v as int,
                            (m - 1) as nat,
                        ),
                ;
            } else {
                assert(v as int == s_spec);
                assert(frac_bits(v_old as int, m) == frac_bits(v as int, (m - 1) as nat));
                assert(acc_old * pow2(m) + frac_bits(v_old as int, m) == acc * pow2(
                    (m - 1) as nat,
                ) + frac_bits(v as int, (m - 1) as nat)) by (nonlinear_arith)
                    requires
                        acc == 2 * acc_old,
                        pow2(m) == pow2((m - 1) as nat) * 2,
                        frac_bits(v_old as int, m) == frac_bits(v as int, (m - 1) as nat),
                ;
            }
            assert(frac_bits(v0 as int, 16) == acc * pow2((16 - i) as nat) + frac_bits(
                v as int,
                (16 - i) as nat,
            ));
        }
    }
    proof {
        pow2_basics();
        assert(frac_bits(v as int, 0) == 0);
        assert(acc * pow2(0) == acc) by (nonlinear_arith)
            requires
                pow2(0) == 1,
        ;
        assert(frac_bits(v0 as int, 16) == acc);
        assert(k * (Q16 as int) + acc == spec_log2_q16(num as int, den as int));
    }
    k * Q16 + acc
}

/// The value of 2^64, needed to bound the integer part of the logarithm.
proof fn lemma_pow2_64()
    ensures
        pow2(64) == 0x10000000000000000,
{
    vstd::arithmetic::power2::lemma2_to64_rest();
}

/// Musical distance between a frequency and a reference, in thousandths of a
/// cent-count, i.e. `1200 * |log2(f / base)|` scaled by 1000, rounded down.
pub open spec fn spec_cents_milli(f: int, base: int) -> int
    recommends
        1 <= f,
        1 <= base,
{
    if f >= base {
        1200000 * spec_log2_q16(f, base) / (Q16 as int)
    } else {
        1200000 * spec_log2_q16(base, f) / (Q16 as int)
    }
}

/// How precisely a frequency matches a reference, in parts per million:
/// full confidence at an exact match, falling linearly to zero at one
/// hundred cents (one semitone) of distance.
pub open spec fn spec_confidence_ppm(f: int, base: int) -> int
    recommends
        1 <= f,
        1 <= base,
{
    let c = spec_cents_milli(f, base);
    if c >= 100_000 {
        0
    } else {
        (100_000 - c) * 10
    }
}

/// Distance in milli-cents between `f` and `base`, both in milli-hertz.
pub fn cents_milli(f: u64, base: u64) -> (r: u64)
    requires
        1 <= f,
        1 <= base,
    ensures
        r == spec_cents_milli(f as int, base as int),
{
    let lg: u64 = if f >= base {
        log2_q16(f, base)
    } else {
        log2_q16(base, f)
    };
    (1200000u64 * lg) / Q16
}

/// Confidence of a frequency against a reference, in parts per million.
pub fn confidence_ppm(f: u64, base: u64) -> (r: u32)
    requires
        1 <= f,
        1 <= base,
    ensures
        r == spec_confidence_ppm(f as int, base as int),
        r <= PPM_ONE,
{
    let c = cents_milli(f, base);
    if c >= 100_000 {
        0
    } else {
        ((100_000 - c) * 10) as u32
    }
}

/// Zero distance means full confidence.
pub proof fn lemma_confidence_exact(f: int)
    requires
        1 <= f,
    ensures
        spec_cents_milli(f, f) == 0,
        spec_confidence_ppm(f, f) == PPM_ONE,
{
    assert(2 * f > f);
    assert(lg_floor(f, f) == 0);
    lemma_div_multiples_vanish(Q32 as int, f);
    assert(pow2(0) == 1) by {
        pow2_basics();
    }
    assert(f * (pow2(0) as int) == f);
    assert(f * (Q32 as int) == (Q32 as int) * f) by (nonlinear_arith);
    assert(norm_q32(f, f) == Q32 as int);
    lemma_frac_bits_of_one(16);
    assert(spec_log2_q16(f, f) == 0);
}

/// Above the reference, confidence never rises as the frequency grows.
pub proof fn lemma_confidence_mono_above(base: int, f1: int, f2: int)
    requires
        1 <= base <= f1 <= f2,
    ensures
        spec_confidence_ppm(f2, base) <= spec_confidence_ppm(f1, base),
{
    lemma_log2_mono_num(f1, f2, base);
    lemma_cents_from_log(f1, base);
    lemma_cents_from_log(f2, base);
    assert(1200000 * spec_log2_q16(f1, base) <= 1200000 * spec_log2_q16(f2, base))
        by (nonlinear_arith)
        requires
            spec_log2_q16(f1, base) <= spec_log2_q16(f2, base),
    ;
    lemma_div_is_ordered(
        1200000 * spec_log2_q16(f1, base),
        1200000 * spec_log2_q16(f2, base),
        Q16 as int,
    );
}

/// Below the reference, confidence never rises as the frequency shrinks.
pub proof fn lemma_confidence_mono_below(base: int, f1: int, f2: int)
    requires
        1 <= f1 <= f2 <= base,
    ensures
        spec_confidence_ppm(f1, base) <= spec_confidence_ppm(f2, base),
{
    if f1 < base && f2 < base {
        lemma_log2_anti_den(base, f1, f2);
        assert(1200000 * spec_log2_q16(base, f2) <= 1200000 * spec_log2_q16(base, f1))
            by (nonlinear_arith)
            requires
                spec_log2_q16(base, f2) <= spec_log2_q16(base, f1),
        ;
        lemma_div_is_ordered(
            1200000 * spec_log2_q16(base, f2),
            1200000 * spec_log2_q16(base, f1),
            Q16 as int,
        );
    } else if f1 < base && f2 == base {
        lemma_confidence_exact(f2);
        lemma_cents_nonneg(f1, base);
    }
}

/// The cents measure is never negative.
pub proof fn lemma_cents_nonneg(f: int, base: int)
    requires
        1 <= f,
        1 <= base,
    ensures
        0 <= spec_cents_milli(f, base),
        spec_confidence_ppm(f, base) <= PPM_ONE,
{
    if f >= base {
        lemma_log_nonneg(f, base);
    } else {
        lemma_log_nonneg(base, f);
    }
}

proof fn lemma_log_nonneg(n: int, d: int)
    requires
        1 <= d <= n,
    ensures
        0 <= spec_log2_q16(n, d),
        0 <= 1200000 * spec_log2_q16(n, d) / (Q16 as int),
{
    lemma_norm_range(n, d);
    lemma_frac_bits_bound(norm_q32(n, d), 16);
    assert(0 <= lg_floor(n, d) * (Q16 as int)) by (nonlinear_arith)
        requires
            0 <= lg_floor(n, d),
            0 < (Q16 as int),
    ;
    assert(0 <= 1200000 * spec_log2_q16(n, d)) by (nonlinear_arith)
        requires
            0 <= spec_log2_q16(n, d),
    ;
    lemma_div_is_ordered(0, 1200000 * spec_log2_q16(n, d), Q16 as int);
}

proof fn lemma_cents_from_log(f: int, base: int)
    requires
        1 <= base <= f,
    ensures
        spec_cents_milli(f, base) == 1200000 * spec_log2_q16(f, base) / (Q16 as int),
        0 <= spec_cents_milli(f, base),
{
    lemma_log_nonneg(f, base);
}

/// Confidence reaches zero exactly when the distance reaches one hundred
/// cents, one semitone, in the library's cents measure.
pub proof fn lemma_confidence_zero_iff_semitone(f: int, base: int)
    requires
        1 <= f,
        1 <= base,
    ensures
        (spec_confidence_ppm(f, base) == 0) <==> (spec_cents_milli(f, base) >= 100_000),
{
    lemma_cents_nonneg(f, base);
}

/// Score bonus for low frequencies, in parts per million:
/// `1 / (1 + log2(f / 50 Hz))`, clamped to [0, 1]. Frequencies at or below
/// 50 Hz saturate the bonus; below 25 Hz the unclamped expression turns
/// negative and the clamp pins it to zero.
pub open spec fn spec_low_frequency_bonus(f: int) -> int {
    if f < 25_000 {
        0
    } else if f <= 50_000 {
        PPM_ONE as int
    } else {
        (1_000_000 * (Q16 as int)) / ((Q16 as int) + spec_log2_q16(f, 50_000))
    }
}

/// Bonus for a frequency in milli-hertz, in parts per million.
pub fn low_frequency_bonus(freq: u64) -> (r: u32)
    ensures
        r == spec_low_frequency_bonus(freq as int),
        r <= PPM_ONE,
{
    if freq < 25_000 {
        0
    } else if freq <= 50_000 {
        PPM_ONE
    } else {
        let lg = log2_q16(freq, 50_000);
        proof {
            lemma_log_nonneg(freq as int, 50_000);
            lemma_multiply_divide_lt(
                1_000_000 * (Q16 as int),
                (Q16 as int) + spec_log2_q16(freq as int, 50_000),
                1_000_001,
            );
            assert(1_000_000 * (Q16 as int) < ((Q16 as int) + spec_log2_q16(
                freq as int,
                50_000,
            )) * 1_000_001) by (nonlinear_arith)
                requires
                    0 <= spec_log2_q16(freq as int, 50_000),
            ;
        }
        ((1_000_000u64 * Q16) / (Q16 + lg)) as u32
    }
}

/// The low-frequency bonus never rises with frequency, for all frequencies
/// from 25 Hz up.
pub proof fn lemma_bonus_monotone(f1: int, f2: int)
    requires
        25_000 <= f1 <= f2,
    ensures
        spec_low_frequency_bonus(f2) <= spec_low_frequency_bonus(f1),
{
    if f1 <= 50_000 && f2 <= 50_000 {
    } else if f1 <= 50_000 {
        lemma_bonus_le_one(f2);
    } else {
        lemma_log_nonneg(f1, 50_000);
        lemma_log_nonneg(f2, 50_000);
        lemma_log2_mono_num(f1, f2, 50_000);
        lemma_div_is_ordered_by_denominator(
            1_000_000 * (Q16 as int),
            (Q16 as int) + spec_log2_q16(f1, 50_000),
            (Q16 as int) + spec_log2_q16(f2, 50_000),
        );
    }
}

/// The bonus never exceeds one.
pub proof fn lemma_bonus_le_one(f: int)
    ensures
        spec_low_frequency_bonus(f) <= PPM_ONE as int,
        0 <= spec_low_frequency_bonus(f),
{
    if f > 50_000 {
        lemma_log_nonneg(f, 50_000);
        let den = (Q16 as int) + spec_log2_q16(f, 50_000);
        vstd::arithmetic::div_mod::lemma_multiply_divide_le(
            1_000_000 * (Q16 as int),
            den,
            1_000_000,
        );
        assert(1_000_000 * (Q16 as int) <= den * 1_000_000) by (nonlinear_arith)
            requires
                (Q16 as int) <= den,
        ;
        lemma_div_is_ordered(0, 1_000_000 * (Q16 as int), den);
    }
}

/// The anchor values of the bonus: exactly one at 50 Hz, exactly one fifth
/// at 800 Hz (a ratio of sixteen, whose logarithm is exact).
pub proof fn lemma_bonus_anchors()
    ensures
        spec_low_frequency_bonus(50_000) == PPM_ONE as int,
        spec_low_frequency_bonus(800_000) == 200_000,
{
    lemma_log2_pow2_exact(50_000, 4);
    assert(pow2(4) == 16) by {
        pow2_basics();
    }
    assert(50_000 * (pow2(4) as int) == 800_000);
    assert(spec_log2_q16(800_000, 50_000) == 4 * (Q16 as int));
}

/// Clamp of a raw confidence to [0, 1] in parts per million.
pub open spec fn spec_confidence_weight(c: int) -> int {
    if c > PPM_ONE as int {
        PPM_ONE as int
    } else {
        c
    }
}

/// Weight a confidence for scoring: the identity on the unit interval.
pub fn confidence_weight(confidence: u32) -> (r: u32)
    ensures
        r == spec_confidence_weight(confidence as int),
        r <= PPM_ONE,
{
    if confidence > PPM_ONE {
        PPM_ONE
    } else {
        confidence
    }
}

/// The ranking score: 70% low-frequency bonus, 20% confidence, 10% intensity.
pub open spec fn spec_score_ppm(bonus: int, conf: int, inten: int) -> int {
    (7 * bonus + 2 * conf + inten) / 10
}

/// Combined score of a candidate note, in parts per million.
pub fn score_ppm(bonus: u32, conf: u32, inten: u32) -> (r: u64)
    ensures
        r == spec_score_ppm(bonus as int, conf as int, inten as int),
{
    (7u64 * (bonus as u64) + 2u64 * (conf as u64) + (inten as u64)) / 10
}

} // verus!
