//! Fixed-point readings.
//!
//! Totals are carried as integers in units of 2^-20: a memory total counts
//! bytes, so one mebibyte is 2^20 units, and a CPU total counts 2^-20 percent.
//! A sampled CPU percentage arrives as the bit pattern of an IEEE-754
//! single-precision number and is turned into units here, or rejected.

use vstd::prelude::*;
use vstd::arithmetic::power2::*;
use vstd::bits::*;
use crate::error::MonitorError;

verus! {

/// Units per whole: bytes in a mebibyte, and CPU units in one percent.
pub const UNITS_PER_WHOLE: u64 = 1048576;

/// The largest exponent field whose readings still fit in 64 bits of units.
pub const MAX_EXPONENT_FIELD: u32 = 170;

/// The sign bit of a single-precision pattern.
pub open spec fn sign_bit(bits: u32) -> bool {
    bits >= 0x8000_0000
}

/// The eight-bit exponent field of a single-precision pattern.
pub open spec fn exponent_field(bits: u32) -> nat {
    ((bits / 0x80_0000) % 256) as nat
}

/// The 23-bit fraction field of a single-precision pattern.
pub open spec fn fraction_field(bits: u32) -> nat {
    (bits % 0x80_0000) as nat
}

/// The integer significand: the fraction, with the hidden bit for normal numbers.
pub open spec fn significand(bits: u32) -> nat {
    if exponent_field(bits) == 0 {
        fraction_field(bits)
    } else {
        fraction_field(bits) + 0x80_0000
    }
}

/// The power of two that scales the significand: the magnitude of a finite
/// pattern is `significand * 2^binary_exponent`.
pub open spec fn binary_exponent(bits: u32) -> int {
    if exponent_field(bits) == 0 {
        -149
    } else {
        exponent_field(bits) - 150
    }
}

/// `floor(m * 2^p)`.
pub open spec fn scale_by_power_of_two(m: nat, p: int) -> nat {
    if p >= 0 {
        m * pow2(p as nat)
    } else {
        m / pow2((-p) as nat)
    }
}

/// The magnitude of a finite pattern in units of 2^-20, rounded down.
pub open spec fn magnitude_units(bits: u32) -> nat {
    scale_by_power_of_two(significand(bits), binary_exponent(bits) + 20)
}

/// Neither an infinity nor a NaN.
pub open spec fn is_finite(bits: u32) -> bool {
    exponent_field(bits) != 255
}

/// Strictly below zero: the sign is set and the magnitude is not zero.
pub open spec fn is_negative(bits: u32) -> bool {
    sign_bit(bits) && bits != 0x8000_0000
}

/// A pattern is accepted as a reading when it is finite, not negative, and
/// below 2^44, so that its units fit in 64 bits.
pub open spec fn valid_reading(bits: u32) -> bool {
    &&& is_finite(bits)
    &&& !is_negative(bits)
    &&& exponent_field(bits) <= MAX_EXPONENT_FIELD
}

/// Every accepted reading fits in 64 bits of units.
pub proof fn lemma_valid_reading_fits(bits: u32)
    requires
        valid_reading(bits),
    ensures
        magnitude_units(bits) <= u64::MAX,
{
    let e = exponent_field(bits);
    let m = significand(bits);
    assert(m < 0x100_0000);
    if e >= 130 {
        let k = (e - 130) as nat;
        lemma_pow2_bound_40(k);
        assert(m * pow2(k) <= 0xff_ffff * 0x100_0000_0000) by (nonlinear_arith)
            requires
                m <= 0xff_ffff,
                pow2(k) <= 0x100_0000_0000,
        ;
    } else {
        let k = (-(binary_exponent(bits) + 20)) as nat;
        lemma_pow2_pos(k);
        assert(m / pow2(k) <= m) by (nonlinear_arith)
            requires
                pow2(k) > 0,
        ;
    }
}

/// A finite pattern above the largest accepted exponent does not fit in 64
/// bits of units: no reading is turned away for its size that could be
/// carried.
pub proof fn lemma_oversized_reading_overflows(bits: u32)
    requires
        is_finite(bits),
        exponent_field(bits) > MAX_EXPONENT_FIELD,
    ensures
        magnitude_units(bits) > u64::MAX,
{
    let e = exponent_field(bits);
    let m = significand(bits);
    let k = (e - 130) as nat;
    assert(m >= 0x80_0000);
    lemma2_to64();
    if k > 41 {
        lemma_pow2_strictly_increases(41, k);
    }
    assert(pow2(41) == 0x200_0000_0000) by {
        lemma_pow2_adds(32, 9);
    }
    assert(m * pow2(k) >= 0x80_0000 * 0x200_0000_0000) by (nonlinear_arith)
        requires
            m >= 0x80_0000,
            pow2(k) >= 0x200_0000_0000,
    ;
}

proof fn lemma_pow2_bound_40(k: nat)
    requires
        k <= 40,
    ensures
        0 < pow2(k) <= 0x100_0000_0000,
{
    lemma2_to64();
    lemma_pow2_pos(k);
    assert(pow2(40) == 0x100_0000_0000) by {
        lemma_pow2_adds(32, 8);
    }
    if k < 40 {
        lemma_pow2_strictly_increases(k, 40);
    }
}

/// Turns the bit pattern of a single-precision percentage into units of
/// 2^-20 percent, rounding down.
///
/// The pattern is rejected with `InvalidMetric` when it is a NaN or an
/// infinity, when it is negative, or when it is 2^44 or more; negative zero
/// counts as zero.
pub fn reading_units(bits: u32) -> (result: Result<u64, MonitorError>)
    ensures
        match result {
            Ok(units) => valid_reading(bits) && units == magnitude_units(bits),
            Err(error) => !valid_reading(bits) && error == MonitorError::InvalidMetric,
        },
{
    let exponent: u32 = (bits / 0x80_0000) % 256;
    let fraction: u32 = bits % 0x80_0000;
    let negative = bits > 0x8000_0000;
    if negative || exponent > MAX_EXPONENT_FIELD {
        return Err(MonitorError::InvalidMetric);
    }
    proof {
        lemma_valid_reading_fits(bits);
    }
    let m: u64 = if exponent == 0 {
        fraction as u64
    } else {
        fraction as u64 + 0x80_0000
    };
    if exponent >= 130 {
        let shift: u64 = (exponent - 130) as u64;
        proof {
            lemma_u64_shl_is_mul(m, shift);
        }
        Ok(m << shift)
    } else {
        let shift: u64 = if exponent == 0 {
            129
        } else {
            (130 - exponent) as u64
        };
        if shift >= 24 {
            proof {
                lemma_small_quotient(m as nat, shift as nat);
            }
            Ok(0)
        } else {
            proof {
                lemma_u64_shr_is_div(m, shift);
            }
            Ok(m >> shift)
        }
    }
}

proof fn lemma_small_quotient(m: nat, k: nat)
    requires
        m < 0x100_0000,
        k >= 24,
    ensures
        m / pow2(k) == 0,
{
    lemma2_to64();
    if k > 24 {
        lemma_pow2_strictly_increases(24, k);
    }
    assert(m / pow2(k) == 0) by (nonlinear_arith)
        requires
            m < 0x100_0000,
            pow2(k) >= 0x100_0000,
    ;
}

/// The order of two non-negative finite patterns by the numbers they stand
/// for: by exponent first, then by fraction.
pub open spec fn reading_le(a: u32, b: u32) -> bool {
    exponent_field(a) < exponent_field(b) || (exponent_field(a) == exponent_field(b)
        && fraction_field(a) <= fraction_field(b))
}

proof fn lemma_scale_grows_with_significand(m: nat, n: nat, p: int)
    requires
        m <= n,
    ensures
        scale_by_power_of_two(m, p) <= scale_by_power_of_two(n, p),
{
    if p >= 0 {
        vstd::arithmetic::mul::lemma_mul_inequality(m as int, n as int, pow2(p as nat) as int);
    } else {
        lemma_pow2_pos((-p) as nat);
        vstd::arithmetic::div_mod::lemma_div_is_ordered(
            m as int,
            n as int,
            pow2((-p) as nat) as int,
        );
    }
}

proof fn lemma_scale_doubles(m: nat, p: int)
    ensures
        scale_by_power_of_two(2 * m, p) == scale_by_power_of_two(m, p + 1),
{
    if p >= 0 {
        let d = pow2(p as nat);
        lemma_pow2_unfold((p + 1) as nat);
        assert(pow2((p + 1) as nat) == 2 * d);
        assert((2 * m) * d == m * (2 * d)) by (nonlinear_arith);
    } else if p == -1 {
        lemma2_to64();
        let d = pow2(1);
        assert((2 * m) / d == m) by (nonlinear_arith)
            requires
                d == 2,
        ;
        let e = pow2(0);
        assert(m * e == m) by (nonlinear_arith)
            requires
                e == 1,
        ;
    } else {
        let k = (-p) as nat;
        let d = pow2((k - 1) as nat);
        lemma_pow2_unfold(k);
        lemma_pow2_pos((k - 1) as nat);
        assert(pow2(k) == 2 * d);
        vstd::arithmetic::div_mod::lemma_div_denominator((2 * m) as int, 2, d as int);
        assert((2 * m) / 2 == m);
        assert(((2 * m) / 2) / d == (2 * m) / (2 * d));
        assert((-(p + 1)) as nat == (k - 1) as nat);
    }
}

proof fn lemma_scale_grows_with_exponent(m: nat, p: int, q: int)
    requires
        p <= q,
    ensures
        scale_by_power_of_two(m, p) <= scale_by_power_of_two(m, q),
    decreases q - p,
{
    if p < q {
        lemma_scale_grows_with_exponent(m, p, q - 1);
        lemma_scale_grows_with_significand(m, 2 * m, q - 1);
        lemma_scale_doubles(m, q - 1);
    }
}

/// Readings keep their order: of two finite patterns, the one that stands
/// for the larger magnitude has at least as many units.
pub proof fn lemma_units_keep_order(a: u32, b: u32)
    requires
        is_finite(a),
        is_finite(b),
        reading_le(a, b),
    ensures
        magnitude_units(a) <= magnitude_units(b),
{
    let p = binary_exponent(a) + 20;
    let q = binary_exponent(b) + 20;
    if exponent_field(a) == exponent_field(b) {
        lemma_scale_grows_with_significand(significand(a), significand(b), p);
    } else if exponent_field(a) == 0 {
        lemma_scale_grows_with_significand(significand(a), 0x80_0000, p);
        lemma_scale_grows_with_exponent(0x80_0000, p, q);
        lemma_scale_grows_with_significand(0x80_0000, significand(b), q);
    } else {
        lemma_scale_grows_with_significand(significand(a), 0x100_0000, p);
        lemma_scale_doubles(0x80_0000, p);
        lemma_scale_grows_with_exponent(0x80_0000, p + 1, q);
        lemma_scale_grows_with_significand(0x80_0000, significand(b), q);
    }
}

/// Hundredths in a total of 2^-20 units, rounded to the nearest hundredth
/// with ties going to the even one.
pub open spec fn hundredths(units: nat) -> nat {
    let scaled = units * 100;
    let quotient = scaled / (UNITS_PER_WHOLE as nat);
    let remainder = scaled % (UNITS_PER_WHOLE as nat);
    if 2 * remainder < UNITS_PER_WHOLE || (2 * remainder == UNITS_PER_WHOLE && quotient % 2 == 0) {
        quotient
    } else {
        quotient + 1
    }
}

/// The total in hundredths, rounded half to even.
pub fn to_hundredths(units: u128) -> (h: u128)
    ensures
        h == hundredths(units as nat),
{
    let whole: u128 = units / 1048576;
    let part: u128 = units % 1048576;
    let scaled_part: u128 = part * 100;
    let quotient: u128 = scaled_part / 1048576;
    let remainder: u128 = scaled_part % 1048576;
    let base: u128 = whole * 100 + quotient;
    assert(units * 100 == (whole * 100 + quotient) * 1048576 + remainder);
    if 2 * remainder < 1048576 || (2 * remainder == 1048576 && quotient % 2 == 0) {
        base
    } else {
        base + 1
    }
}

/// Whole kibi-units in a total, capped at what 64 bits hold: the height of a
/// chart bar for a memory total in bytes.
pub open spec fn chart_height(units: nat) -> nat {
    if units / 1024 <= u64::MAX {
        units / 1024
    } else {
        u64::MAX as nat
    }
}

/// The bar height for a total.
pub fn to_chart_height(units: u128) -> (height: u64)
    ensures
        height == chart_height(units as nat),
{
    let kib: u128 = units / 1024;
    if kib <= u64::MAX as u128 {
        kib as u64
    } else {
        u64::MAX
    }
}

} // verus!
