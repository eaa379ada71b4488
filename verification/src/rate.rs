//! Failure rates: 64-bit binary floating-point numbers, held as their bits and taken for the exact
//! numbers that they stand for.

use vstd::arithmetic::power2::{lemma2_to64, lemma_pow2_adds, lemma_pow2_pos, pow2};
use vstd::prelude::*;

verus! {

/// The bits of a rate below its exponent.
pub open spec fn fraction(bits: u64) -> nat {
    bits as nat % 0x10_0000_0000_0000
}

/// The exponent bits of a rate.
pub open spec fn exponent(bits: u64) -> nat {
    bits as nat / 0x10_0000_0000_0000 % 2048
}

/// Whether the sign bit of a rate is set.
pub open spec fn negative(bits: u64) -> bool {
    bits >= 0x8000_0000_0000_0000
}

/// Whether the bits are no number.
pub open spec fn is_nan(bits: u64) -> bool {
    exponent(bits) == 2047 && fraction(bits) != 0
}

/// The significand of a finite rate, as a whole number.
pub open spec fn significand(bits: u64) -> nat {
    if exponent(bits) == 0 {
        fraction(bits)
    } else {
        fraction(bits) + 0x10_0000_0000_0000
    }
}

/// The power of two that the significand of a finite rate is multiplied by, moved up by 1075.
pub open spec fn scale(bits: u64) -> nat {
    if exponent(bits) == 0 {
        1
    } else {
        exponent(bits)
    }
}

/// The size of a finite rate, multiplied by two to the power of 1075: a whole number.
pub open spec fn magnitude(bits: u64) -> nat {
    significand(bits) * pow2(scale(bits))
}

/// Whether a finite rate or an infinity lies at or below `k` divided by two to the power of
/// fifty-two. Nothing lies below what is no number.
pub open spec fn at_most_fraction(bits: u64, k: nat) -> bool {
    if is_nan(bits) {
        false
    } else if negative(bits) {
        true
    } else if exponent(bits) == 2047 {
        false
    } else {
        magnitude(bits) <= k * pow2(1023)
    }
}

/// Whether two rates are equal as numbers: zero is zero with either sign, and what is no number
/// equals nothing.
pub open spec fn equal_rates(a: u64, b: u64) -> bool {
    &&& !is_nan(a)
    &&& !is_nan(b)
    &&& a == b || (a == 0 || a == 0x8000_0000_0000_0000) && (b == 0 || b == 0x8000_0000_0000_0000)
}

/// Whether bits are no number.
pub fn not_a_number(bits: u64) -> (r: bool)
    ensures
        r == is_nan(bits),
{
    bits / 0x10_0000_0000_0000 % 2048 == 2047 && bits % 0x10_0000_0000_0000 != 0
}

/// Whether two rates are equal as numbers.
pub fn same_rate(a: u64, b: u64) -> (r: bool)
    ensures
        r == equal_rates(a, b),
{
    if not_a_number(a) || not_a_number(b) {
        return false;
    }
    a == b || (a == 0 || a == 0x8000_0000_0000_0000) && (b == 0 || b == 0x8000_0000_0000_0000)
}

/// Whether a rate lies at or below `k` divided by two to the power of fifty-two.
pub fn rate_at_most(bits: u64, k: u64) -> (r: bool)
    requires
        k < 0x10_0000_0000_0000,
    ensures
        r == at_most_fraction(bits, k as nat),
{
    if not_a_number(bits) {
        return false;
    }
    if bits >= 0x8000_0000_0000_0000 {
        return true;
    }
    let exp: u64 = bits / 0x10_0000_0000_0000 % 2048;
    if exp == 2047 {
        return false;
    }
    let low: u64 = bits % 0x10_0000_0000_0000;
    let m: u64 = if exp == 0 {
        low
    } else {
        low + 0x10_0000_0000_0000
    };
    let e: u64 = if exp == 0 {
        1
    } else {
        exp
    };
    assert(m == significand(bits));
    assert(e == scale(bits));
    if e >= 1023 {
        proof {
            lemma_large(m as nat, e as nat, k as nat);
        }
        return false;
    }
    let shift: u64 = 1023 - e;
    proof {
        lemma_shifted(m as nat, e as nat, k as nat, shift as nat);
    }
    if k == 0 {
        assert(0 * pow2(shift as nat) == 0);
        return m == 0;
    }
    if shift >= 53 {
        proof {
            lemma_far(m as nat, k as nat, shift as nat);
        }
        return true;
    }
    let mut scaled: u128 = k as u128;
    let mut i: u64 = 0;
    proof {
        lemma2_to64();
        assert(k * pow2(0) == k);
    }
    while i < shift
        invariant
            i <= shift,
            shift < 53,
            k < 0x10_0000_0000_0000,
            scaled == k * pow2(i as nat),
        decreases shift - i,
    {
        proof {
            lemma_doubled(k as nat, i as nat);
        }
        scaled = scaled * 2;
        i += 1;
    }
    scaled >= m as u128
}

proof fn lemma_doubled(k: nat, i: nat)
    requires
        i < 53,
        k < 0x10_0000_0000_0000,
    ensures
        k * pow2(i) * 2 == k * pow2(i + 1),
        k * pow2(i) * 2 <= u128::MAX,
{
    lemma2_to64();
    lemma_pow2_adds(i, 1);
    assert(k * pow2(i) * 2 == k * (pow2(i) * 2)) by (nonlinear_arith);
    vstd::arithmetic::power2::lemma_pow2_strictly_increases(i, 53);
    lemma_fifty_three();
    assert(k * pow2(i) <= 0x10_0000_0000_0000 * 0x20_0000_0000_0000) by (nonlinear_arith)
        requires
            k <= 0x10_0000_0000_0000,
            pow2(i) <= 0x20_0000_0000_0000,
    ;
}

proof fn lemma_fifty_three()
    ensures
        pow2(53) == 0x20_0000_0000_0000,
{
    lemma2_to64();
    lemma_pow2_adds(32, 21);
    assert(pow2(21) == 0x20_0000);
    assert(pow2(32) == 0x1_0000_0000);
    assert(0x1_0000_0000 * 0x20_0000 == 0x20_0000_0000_0000int);
}

/// A rate of one or more lies above every fraction.
proof fn lemma_large(m: nat, e: nat, k: nat)
    requires
        m >= 0x10_0000_0000_0000,
        e >= 1023,
        k < 0x10_0000_0000_0000,
    ensures
        m * pow2(e) > k * pow2(1023),
{
    if e > 1023 {
        vstd::arithmetic::power2::lemma_pow2_strictly_increases(1023, e);
    }
    lemma_pow2_pos(1023);
    assert(m * pow2(e) > k * pow2(1023)) by (nonlinear_arith)
        requires
            m > k,
            pow2(e) >= pow2(1023),
            pow2(1023) > 0,
    ;
}

/// What is left of the comparison where the common power of two is taken out.
pub proof fn lemma_shifted(m: nat, e: nat, k: nat, shift: nat)
    requires
        e + shift == 1023,
    ensures
        m * pow2(e) <= k * pow2(1023) <==> m <= k * pow2(shift),
{
    lemma_pow2_adds(e, shift);
    lemma_pow2_pos(e);
    let p = pow2(e);
    let q = k * pow2(shift);
    assert(k * pow2(1023) == q * p) by (nonlinear_arith)
        requires
            pow2(1023) == p * pow2(shift),
            q == k * pow2(shift),
    ;
    assert(m * p <= q * p <==> m <= q) by (nonlinear_arith)
        requires
            p > 0,
    ;
}

/// A rate that small lies below every fraction but zero.
proof fn lemma_far(m: nat, k: nat, shift: nat)
    requires
        m < 0x20_0000_0000_0000,
        k >= 1,
        shift >= 53,
    ensures
        m <= k * pow2(shift),
{
    lemma_fifty_three();
    if shift > 53 {
        vstd::arithmetic::power2::lemma_pow2_strictly_increases(53, shift);
    }
    assert(k * pow2(shift) >= pow2(shift)) by (nonlinear_arith)
        requires
            k >= 1,
    ;
}

/// A rate that lies above a fraction lies above it also where it is higher: whatever is drawn, a
/// higher rate fails at least as often.
pub proof fn higher_rate_fails_more(low: u64, high: u64, k: nat)
    requires
        !negative(low),
        !negative(high),
        exponent(low) < 2047,
        exponent(high) < 2047,
        magnitude(low) <= magnitude(high),
        at_most_fraction(high, k),
    ensures
        at_most_fraction(low, k),
{
}

/// Rates that are not negative are ordered as their bits.
pub proof fn lemma_ordered(low: u64, high: u64)
    requires
        low <= high,
        !negative(high),
        exponent(high) < 2047,
    ensures
        !negative(low),
        exponent(low) < 2047,
        magnitude(low) <= magnitude(high),
{
    let (e, f) = (exponent(low), exponent(high));
    assert(e <= f);
    if e == f {
        assert(significand(low) <= significand(high));
        assert(magnitude(low) <= magnitude(high)) by (nonlinear_arith)
            requires
                magnitude(low) == significand(low) * pow2(scale(high)),
                magnitude(high) == significand(high) * pow2(scale(high)),
                significand(low) <= significand(high),
        ;
    } else {
        let (p, q) = (pow2(scale(low)), pow2(scale(high)));
        lemma_pow2_pos(scale(low));
        if e == 0 {
            if f > 1 {
                vstd::arithmetic::power2::lemma_pow2_strictly_increases(1, f);
            }
            assert(significand(low) <= significand(high));
            assert(significand(low) * p <= significand(high) * q) by (nonlinear_arith)
                requires
                    significand(low) <= significand(high),
                    p <= q,
            ;
        } else {
            lemma_pow2_adds(e, 1);
            lemma2_to64();
            if e + 1 < f {
                vstd::arithmetic::power2::lemma_pow2_strictly_increases(e + 1, f);
            }
            assert(significand(low) * p <= significand(high) * q) by (nonlinear_arith)
                requires
                    significand(low) <= 2 * 0x10_0000_0000_0000,
                    0x10_0000_0000_0000 <= significand(high),
                    2 * p <= q,
            ;
        }
    }
}

/// How many of the fractions lie below a rate, which is finite and not negative.
pub open spec fn refusals(bits: u64) -> nat {
    ((magnitude(bits) + pow2(1023) - 1) / pow2(1023) as int) as nat
}

/// A rate between zero and one is the share of the draws that fail: of the fractions, which are two
/// to the power of fifty-two, those fail that lie below it, and they are as many as the rate says,
/// rounded up.
pub proof fn rate_is_share_of_refusals(bits: u64, k: nat)
    requires
        !negative(bits),
        exponent(bits) < 1023 || bits == 0x3FF0_0000_0000_0000,
    ensures
        at_most_fraction(bits, k) <==> k >= refusals(bits),
        refusals(bits) <= 0x10_0000_0000_0000,
        magnitude(bits) <= refusals(bits) * pow2(1023) < magnitude(bits) + pow2(1023),
{
    let p = pow2(1023) as int;
    let m = magnitude(bits) as int;
    let n = (m + p - 1) / p;
    lemma_pow2_pos(1023);
    vstd::arithmetic::div_mod::lemma_fundamental_div_mod(m + p - 1, p);
    vstd::arithmetic::div_mod::lemma_div_pos_is_pos(m + p - 1, p);
    assert(p * n == n * p) by (nonlinear_arith);
    assert(m <= n * p < m + p);
    assert(m <= k * p <==> k >= n) by (nonlinear_arith)
        requires
            m <= n * p < m + p,
            p > 0,
    ;
    lemma_below_one(bits);
    assert(n <= 0x10_0000_0000_0000) by (nonlinear_arith)
        requires
            n * p < m + p,
            m <= 0x10_0000_0000_0000 * p,
            p > 0,
    ;
}

/// A rate that is at most one.
proof fn lemma_below_one(bits: u64)
    requires
        !negative(bits),
        exponent(bits) < 1023 || bits == 0x3FF0_0000_0000_0000,
    ensures
        magnitude(bits) <= 0x10_0000_0000_0000 * pow2(1023),
{
    let m = significand(bits);
    let e = scale(bits);
    if exponent(bits) < 1023 {
        lemma_shifted(m, e, 0x10_0000_0000_0000, (1023 - e) as nat);
        lemma_pow2_pos((1022 - e) as nat);
        lemma_pow2_adds((1022 - e) as nat, 1);
        lemma2_to64();
        assert(m <= 0x10_0000_0000_0000 * pow2((1023 - e) as nat)) by (nonlinear_arith)
            requires
                m <= 0x20_0000_0000_0000,
                pow2((1023 - e) as nat) >= 2,
        ;
    } else {
        assert(exponent(bits) == 1023);
        assert(fraction(bits) == 0);
    }
}

/// A rate of zero or less never fails, and one of one or more always does.
pub proof fn extreme_rates(bits: u64, k: nat)
    requires
        k < 0x10_0000_0000_0000,
        !is_nan(bits),
    ensures
        negative(bits) || bits == 0 ==> at_most_fraction(bits, k),
        !negative(bits) && exponent(bits) >= 1023 ==> !at_most_fraction(bits, k),
{
    if bits == 0 {
        assert(magnitude(bits) == 0) by {
            assert(0 * pow2(1) == 0);
        }
        assert(0 <= k * pow2(1023)) by (nonlinear_arith);
    }
    if !negative(bits) && 1023 <= exponent(bits) < 2047 {
        lemma_large(significand(bits), scale(bits), k);
    }
}

/// A rate of one half fails for one half of the fractions.
pub proof fn half_rate_fails_half_the_draws(k: nat)
    requires
        k < 0x10_0000_0000_0000,
    ensures
        at_most_fraction(0x3FE0_0000_0000_0000, k) <==> k >= 0x8_0000_0000_0000,
{
    let bits: u64 = 0x3FE0_0000_0000_0000;
    assert(exponent(bits) == 1022);
    assert(fraction(bits) == 0);
    lemma_shifted(0x10_0000_0000_0000, 1022, k, 1);
    lemma2_to64();
}

} // verus!
