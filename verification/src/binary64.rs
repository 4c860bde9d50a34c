//! Double-precision values by their bit patterns.
//!
//! A pattern is a `u64` laid out as one sign bit, eleven exponent bits and
//! fifty-two fraction bits. Every finite double is a whole number of units
//! of 2^-1074, which gives the patterns an exact integer model: the whole
//! part of a value is its count of units divided by 2^1074.

use vstd::prelude::*;
use vstd::arithmetic::power2::pow2;

verus! {

/// The sign bit is set.
pub open spec fn is_negative(bits: u64) -> bool {
    bits >= 0x8000_0000_0000_0000
}

/// The eleven exponent bits, as a number.
pub open spec fn exponent_field(bits: u64) -> nat {
    ((bits / 0x10_0000_0000_0000) % 0x800) as nat
}

/// The fifty-two fraction bits, as a number.
pub open spec fn fraction_field(bits: u64) -> nat {
    (bits % 0x10_0000_0000_0000) as nat
}

/// The pattern is not a number.
pub open spec fn is_nan(bits: u64) -> bool {
    exponent_field(bits) == 0x7ff && fraction_field(bits) != 0
}

/// The pattern is an infinity.
pub open spec fn is_infinite(bits: u64) -> bool {
    exponent_field(bits) == 0x7ff && fraction_field(bits) == 0
}

/// The pattern is zero or a positive number, infinity included.
pub open spec fn is_ordinary(bits: u64) -> bool {
    !is_negative(bits) && !is_nan(bits)
}

/// The magnitude of a finite pattern, counted in units of 2^-1074.
///
/// A subnormal pattern counts its fraction bits alone; a normal one puts the
/// hidden bit in front of them and doubles once for each step of the
/// exponent field above one.
pub open spec fn units(bits: u64) -> nat {
    if exponent_field(bits) == 0 {
        fraction_field(bits)
    } else {
        (0x10_0000_0000_0000 + fraction_field(bits)) * pow2((exponent_field(bits) - 1) as nat)
    }
}

/// The whole part of the magnitude of a finite pattern.
pub open spec fn whole_part(bits: u64) -> nat {
    units(bits) / pow2(1074)
}

/// The unsigned integer that a pattern truncates to.
///
/// The fractional part is dropped. What cannot be represented saturates: a
/// negative value gives zero, a value beyond the range gives the largest
/// `u64`, and a pattern that is not a number gives zero.
pub open spec fn truncation(bits: u64) -> u64 {
    if is_negative(bits) || is_nan(bits) {
        0
    } else if is_infinite(bits) || whole_part(bits) > u64::MAX {
        u64::MAX
    } else {
        whole_part(bits) as u64
    }
}

/// The number that a pattern stands for is larger than one. Infinity is; a
/// pattern that is NaN is not.
pub open spec fn exceeds_one(bits: u64) -> bool {
    is_ordinary(bits) && (is_infinite(bits) || units(bits) > pow2(1074))
}

/// The number that a pattern stands for is smaller than the whole number
/// `bound`. It holds of no pattern that is NaN.
pub open spec fn is_below(bits: u64, bound: nat) -> bool {
    &&& !is_nan(bits)
    &&& bound > 0
    &&& is_negative(bits) || (!is_infinite(bits) && units(bits) < bound * pow2(1074))
}

/// The magnitude of one pattern is no larger than that of the other, where
/// neither pattern is NaN.
pub open spec fn magnitude_at_most(smaller: u64, larger: u64) -> bool {
    is_infinite(larger) || (!is_infinite(smaller) && units(smaller) <= units(larger))
}

/// The number that one pattern stands for is no larger than the number that
/// the other stands for. It holds of no pattern that is NaN, and the two
/// zeros count as equal.
pub open spec fn at_most(smaller: u64, larger: u64) -> bool {
    &&& !is_nan(smaller)
    &&& !is_nan(larger)
    &&& if is_negative(smaller) {
        is_negative(larger) ==> magnitude_at_most(larger, smaller)
    } else if is_negative(larger) {
        units(smaller) == 0 && units(larger) == 0 && !is_infinite(smaller) && !is_infinite(larger)
    } else {
        magnitude_at_most(smaller, larger)
    }
}

/// Whether the sign bit of a pattern is set.
pub fn sign_bit(bits: u64) -> (set: bool)
    ensures
        set == is_negative(bits),
{
    assert((bits >> 63 != 0) == (bits >= 0x8000_0000_0000_0000)) by (bit_vector);
    bits >> 63 != 0
}

/// The eleven exponent bits of a pattern.
pub fn exponent_bits(bits: u64) -> (field: u64)
    ensures
        field == exponent_field(bits),
        field < 0x800,
{
    assert((bits >> 52) & 0x7ff == (bits / 0x10_0000_0000_0000) % 0x800) by (bit_vector);
    (bits >> 52) & 0x7ff
}

/// The fifty-two fraction bits of a pattern.
pub fn fraction_bits(bits: u64) -> (field: u64)
    ensures
        field == fraction_field(bits),
        field < 0x10_0000_0000_0000,
{
    assert(bits & 0xf_ffff_ffff_ffff == bits % 0x10_0000_0000_0000) by (bit_vector);
    bits & 0xf_ffff_ffff_ffff
}

/// Whether the number that a pattern stands for is larger than one.
pub fn is_above_one(bits: u64) -> (above: bool)
    ensures
        above == exceeds_one(bits),
{
    proof {
        lemma_units_of_one();
        if bits < 0x3ff0_0000_0000_0000 {
            lemma_units_increase(bits, 0x3ff0_0000_0000_0000);
        } else if 0x3ff0_0000_0000_0000 < bits < 0x7ff0_0000_0000_0000 {
            lemma_units_increase(0x3ff0_0000_0000_0000, bits);
        }
    }
    0x3ff0_0000_0000_0000 < bits && bits <= 0x7ff0_0000_0000_0000
}

/// Truncates a pattern to an unsigned integer, saturating at both ends.
pub fn truncate(bits: u64) -> (whole: u64)
    ensures
        whole == truncation(bits),
{
    let exponent: u64 = exponent_bits(bits);
    let fraction: u64 = fraction_bits(bits);
    if sign_bit(bits) {
        return 0;
    }
    if exponent == 0x7ff {
        return if fraction == 0 {
            u64::MAX
        } else {
            0
        };
    }
    proof {
        lemma_whole_part(bits);
    }
    if exponent < 1023 {
        return 0;
    }
    if exponent > 1086 {
        return u64::MAX;
    }
    let significand: u64 = 0x10_0000_0000_0000 + fraction;
    if exponent >= 1075 {
        let shift: u64 = exponent - 1075;
        proof {
            lemma_pow2_at_most(shift as nat, 11);
            vstd::arithmetic::power2::lemma2_to64();
            assert(significand * pow2(shift as nat) <= u64::MAX) by (nonlinear_arith)
                requires
                    significand < 0x20_0000_0000_0000,
                    0 < pow2(shift as nat) <= 0x800,
            ;
            vstd::bits::lemma_u64_shl_is_mul(significand, shift);
        }
        significand << shift
    } else {
        let shift: u64 = 1075 - exponent;
        proof {
            vstd::bits::lemma_u64_shr_is_div(significand, shift);
        }
        significand >> shift
    }
}

/// Powers of two do not shrink as the exponent grows.
proof fn lemma_pow2_at_most(low: nat, high: nat)
    requires
        low <= high,
    ensures
        0 < pow2(low) <= pow2(high),
{
    vstd::arithmetic::power2::lemma_pow2_pos(low);
    if low < high {
        vstd::arithmetic::power2::lemma_pow2_strictly_increases(low, high);
    }
}

/// The whole part of a finite pattern, by the size of its exponent field.
///
/// Below the field of one the whole part is zero. From there on it is the
/// significand shifted right, as long as fraction bits lie behind the binary
/// point, and shifted left after that, which leaves the range of `u64` once
/// the shift passes eleven places.
proof fn lemma_whole_part(bits: u64)
    requires
        exponent_field(bits) < 0x7ff,
    ensures
        exponent_field(bits) < 1023 ==> whole_part(bits) == 0,
        1023 <= exponent_field(bits) < 1075 ==> whole_part(bits) == (0x10_0000_0000_0000
            + fraction_field(bits)) / pow2((1075 - exponent_field(bits)) as nat),
        1075 <= exponent_field(bits) ==> whole_part(bits) == (0x10_0000_0000_0000
            + fraction_field(bits)) * pow2((exponent_field(bits) - 1075) as nat),
        1086 < exponent_field(bits) ==> whole_part(bits) > u64::MAX,
{
    let e = exponent_field(bits);
    let significand = 0x10_0000_0000_0000 + fraction_field(bits);
    vstd::arithmetic::power2::lemma2_to64();
    vstd::arithmetic::power2::lemma2_to64_rest();
    if e == 0 {
        lemma_pow2_at_most(53, 1074);
        vstd::arithmetic::div_mod::lemma_basic_div(units(bits) as int, pow2(1074) as int);
    } else if e < 1075 {
        let below = (e - 1) as nat;
        let shift = (1075 - e) as nat;
        vstd::arithmetic::power2::lemma_pow2_adds(below, shift);
        vstd::arithmetic::power2::lemma_pow2_pos(below);
        vstd::arithmetic::power2::lemma_pow2_pos(shift);
        vstd::arithmetic::div_mod::lemma_div_multiples_vanish_quotient(
            pow2(below) as int,
            significand as int,
            pow2(shift) as int,
        );
        assert(units(bits) == pow2(below) * significand) by (nonlinear_arith)
            requires
                units(bits) == significand * pow2(below),
        ;
        assert(whole_part(bits) == significand / pow2(shift));
        if e < 1023 {
            lemma_pow2_at_most(53, shift);
            vstd::arithmetic::div_mod::lemma_basic_div(significand as int, pow2(shift) as int);
        }
    } else {
        let shift = (e - 1075) as nat;
        vstd::arithmetic::power2::lemma_pow2_adds(shift, 1074);
        vstd::arithmetic::power2::lemma_pow2_pos(1074);
        assert(units(bits) == (significand * pow2(shift)) * pow2(1074)) by (nonlinear_arith)
            requires
                units(bits) == significand * pow2((e - 1) as nat),
                pow2((e - 1) as nat) == pow2(shift) * pow2(1074),
        ;
        vstd::arithmetic::div_mod::lemma_div_by_multiple(
            (significand * pow2(shift)) as int,
            pow2(1074) as int,
        );
        if e > 1086 {
            lemma_pow2_at_most(12, shift);
            assert(significand * pow2(shift) > u64::MAX) by (nonlinear_arith)
                requires
                    significand >= 0x10_0000_0000_0000,
                    pow2(shift) >= 0x1000,
            ;
        }
    }
}

/// Truncation rounds towards zero: a number from `whole` up to, but not
/// including, `whole + 1` truncates to `whole`.
pub proof fn truncation_is_the_floor(bits: u64, whole: u64)
    requires
        is_ordinary(bits),
        !is_infinite(bits),
        whole * pow2(1074) <= units(bits) < (whole + 1) * pow2(1074),
    ensures
        truncation(bits) == whole,
{
    let unit = pow2(1074) as int;
    vstd::arithmetic::power2::lemma_pow2_pos(1074);
    assert((whole + 1) * unit == whole * unit + unit) by (nonlinear_arith);
    vstd::arithmetic::div_mod::lemma_fundamental_div_mod_converse(
        units(bits) as int,
        unit,
        whole as int,
        units(bits) - whole * unit,
    );
}

/// A number below a whole number truncates to an integer below it.
pub proof fn truncation_stays_below(bits: u64, bound: nat)
    requires
        is_below(bits, bound),
    ensures
        truncation(bits) < bound,
{
    if !is_negative(bits) {
        vstd::arithmetic::power2::lemma_pow2_pos(1074);
        assert(pow2(1074) * bound == bound * pow2(1074)) by (nonlinear_arith);
        vstd::arithmetic::div_mod::lemma_multiply_divide_lt(
            units(bits) as int,
            pow2(1074) as int,
            bound as int,
        );
    }
}

/// Truncation keeps the order of the numbers: a larger number never
/// truncates to a smaller integer.
pub proof fn truncation_is_monotonic(smaller: u64, larger: u64)
    requires
        at_most(smaller, larger),
    ensures
        truncation(smaller) <= truncation(larger),
{
    vstd::arithmetic::power2::lemma_pow2_pos(1074);
    if !is_negative(smaller) && !is_infinite(smaller) {
        vstd::arithmetic::div_mod::lemma_div_basics_1(pow2(1074) as int);
        if !is_negative(larger) && !is_infinite(larger) {
            vstd::arithmetic::div_mod::lemma_div_is_ordered(
                units(smaller) as int,
                units(larger) as int,
                pow2(1074) as int,
            );
        }
    }
}

/// The pattern of the number one counts 2^1074 units.
proof fn lemma_units_of_one()
    ensures
        units(0x3ff0_0000_0000_0000) == pow2(1074),
{
    vstd::arithmetic::power2::lemma2_to64_rest();
    vstd::arithmetic::power2::lemma_pow2_adds(52, 1022);
}

/// Among finite patterns without a sign, a larger pattern has the larger
/// magnitude.
proof fn lemma_units_increase(smaller: u64, larger: u64)
    requires
        smaller < larger < 0x7ff0_0000_0000_0000,
    ensures
        units(smaller) < units(larger),
{
    let low = exponent_field(smaller);
    let high = exponent_field(larger);
    if low == high {
        if low != 0 {
            vstd::arithmetic::power2::lemma_pow2_pos((low - 1) as nat);
            assert(units(smaller) < units(larger)) by (nonlinear_arith)
                requires
                    units(smaller) == (0x10_0000_0000_0000 + fraction_field(smaller)) * pow2(
                        (low - 1) as nat,
                    ),
                    units(larger) == (0x10_0000_0000_0000 + fraction_field(larger)) * pow2(
                        (low - 1) as nat,
                    ),
                    fraction_field(smaller) < fraction_field(larger),
                    0 < pow2((low - 1) as nat),
            ;
        }
    } else {
        let above = pow2((high - 1) as nat);
        assert(units(larger) >= 0x10_0000_0000_0000 * above) by (nonlinear_arith)
            requires
                units(larger) == (0x10_0000_0000_0000 + fraction_field(larger)) * above,
        ;
        vstd::arithmetic::power2::lemma_pow2_pos((high - 1) as nat);
        if low != 0 {
            let below = pow2((low - 1) as nat);
            lemma_pow2_at_most(low, (high - 1) as nat);
            vstd::arithmetic::power2::lemma_pow2_unfold(low);
            assert(units(smaller) < 0x10_0000_0000_0000 * above) by (nonlinear_arith)
                requires
                    units(smaller) == (0x10_0000_0000_0000 + fraction_field(smaller)) * below,
                    fraction_field(smaller) < 0x10_0000_0000_0000,
                    0 < 2 * below <= above,
            ;
        } else {
            assert(0x10_0000_0000_0000 <= 0x10_0000_0000_0000 * above) by (nonlinear_arith)
                requires
                    0 < above,
            ;
        }
    }
}

/// Among the patterns of zero and of the positive numbers, the order of the
/// patterns as integers is the order of the numbers.
pub proof fn patterns_are_ordered_as_numbers(smaller: u64, larger: u64)
    requires
        is_ordinary(smaller),
        is_ordinary(larger),
    ensures
        at_most(smaller, larger) <==> smaller <= larger,
{
    if !is_infinite(smaller) && !is_infinite(larger) {
        if smaller < larger {
            lemma_units_increase(smaller, larger);
        } else if larger < smaller {
            lemma_units_increase(larger, smaller);
        }
    }
}

} // verus!
