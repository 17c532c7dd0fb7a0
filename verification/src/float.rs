//! Single-precision numbers as bit patterns: a sign, eight digits of exponent and twenty-three of
//! fraction.

use vstd::arithmetic::div_mod::{
    lemma_div_multiples_vanish, lemma_fundamental_div_mod, lemma_mod_bound,
};
use vstd::arithmetic::mul::{
    lemma_mul_inequality, lemma_mul_is_commutative, lemma_mul_strict_inequality,
};
use vstd::arithmetic::power2::{
    lemma2_to64, lemma_pow2_adds, lemma_pow2_pos, lemma_pow2_strictly_increases, pow2,
};
use vstd::bits::lemma_u32_shl_is_mul;
use vstd::prelude::*;

use crate::golomb::{lemma_log2_bounds, log2_floor};

verus! {

/// Whether the sign is set.
pub open spec fn f32_negative(bits: u32) -> bool {
    bits >= 0x8000_0000
}

/// The exponent, which 127 sets to one.
pub open spec fn f32_exponent(bits: u32) -> nat {
    (bits / 0x80_0000 % 0x100) as nat
}

/// The fraction behind the leading digit.
pub open spec fn f32_fraction(bits: u32) -> nat {
    (bits % 0x80_0000) as nat
}

/// The largest whole number that the number reaches and a `u32` holds; 0 for negative numbers and
/// for what is not a number.
pub open spec fn f32_floor(bits: u32) -> nat {
    let exponent = f32_exponent(bits);
    let digits = 0x80_0000 + f32_fraction(bits);
    if f32_negative(bits) || exponent == 255 && f32_fraction(bits) != 0 || exponent < 127 {
        0
    } else if exponent <= 150 {
        digits / pow2((150 - exponent) as nat)
    } else if exponent == 255 || digits * pow2((exponent - 150) as nat) > u32::MAX {
        u32::MAX as nat
    } else {
        digits * pow2((exponent - 150) as nat)
    }
}

/// How often `unit` goes into `value`, rounded to the nearest and from the middle to the even number.
pub open spec fn round_even(value: nat, unit: nat) -> nat {
    let down = value / unit;
    let rest = value % unit;
    if 2 * rest > unit || 2 * rest == unit && down % 2 == 1 {
        down + 1
    } else {
        down
    }
}

/// The nearest number to `value` with no more than twenty-four significant digits, from the middle
/// the one with an even last digit.
pub open spec fn f32_rounded(value: u32) -> nat {
    let magnitude = log2_floor(value as nat);
    if magnitude <= 23 {
        value as nat
    } else {
        let unit = pow2((magnitude - 23) as nat);
        round_even(value as nat, unit) * unit
    }
}

/// The nearest single-precision number to `value`.
pub open spec fn f32_bits(value: u32) -> nat {
    if value == 0 {
        0
    } else {
        let magnitude = log2_floor(value as nat);
        let digits = if magnitude <= 23 {
            value as nat * pow2((23 - magnitude) as nat)
        } else {
            round_even(value as nat, pow2((magnitude - 23) as nat))
        };
        (126 + magnitude) * 0x80_0000 + digits
    }
}

proof fn lemma_magnitude(value: u32)
    requires
        value != 0,
    ensures
        log2_floor(value as nat) <= 31,
        pow2(log2_floor(value as nat)) <= value < pow2(log2_floor(value as nat) + 1),
{
    lemma_log2_bounds(value as nat);
    lemma2_to64();
    if log2_floor(value as nat) > 32 {
        lemma_pow2_strictly_increases(32, log2_floor(value as nat));
    }
}

/// Small values keep their digits.
proof fn lemma_small_digits(value: u32, magnitude: nat)
    requires
        magnitude <= 23,
        pow2(magnitude) <= value < pow2(magnitude + 1),
    ensures
        0x80_0000 <= value * pow2((23 - magnitude) as nat) < 0x100_0000,
{
    let scale = pow2((23 - magnitude) as nat);
    lemma2_to64();
    lemma_pow2_pos((23 - magnitude) as nat);
    lemma_pow2_adds(magnitude, (23 - magnitude) as nat);
    lemma_pow2_adds(magnitude + 1, (23 - magnitude) as nat);
    lemma_mul_inequality(pow2(magnitude) as int, value as int, scale as int);
    lemma_mul_strict_inequality(value as int, pow2(magnitude + 1) as int, scale as int);
}

/// Large values are rounded to twenty-four digits.
proof fn lemma_large_digits(value: u32, magnitude: nat)
    requires
        23 < magnitude <= 31,
        pow2(magnitude) <= value < pow2(magnitude + 1),
    ensures
        2 <= pow2((magnitude - 23) as nat) <= 256,
        0x80_0000 <= value as nat / pow2((magnitude - 23) as nat) < 0x100_0000,
        0x80_0000 <= round_even(value as nat, pow2((magnitude - 23) as nat)) <= 0x100_0000,
{
    let unit = pow2((magnitude - 23) as nat);
    let down = value as nat / unit;
    lemma2_to64();
    lemma_pow2_pos((magnitude - 23) as nat);
    lemma_pow2_adds(23, (magnitude - 23) as nat);
    lemma_pow2_adds(24, (magnitude - 23) as nat);
    if magnitude - 23 > 1 {
        lemma_pow2_strictly_increases(1, (magnitude - 23) as nat);
    }
    if magnitude - 23 < 8 {
        lemma_pow2_strictly_increases((magnitude - 23) as nat, 8);
    }
    lemma_fundamental_div_mod(value as int, unit as int);
    lemma_mod_bound(value as int, unit as int);
    if down < 0x80_0000 {
        lemma_mul_inequality((down + 1) as int, 0x80_0000, unit as int);
        assert((down + 1) * unit == unit * down + unit) by (nonlinear_arith);
    }
    if down >= 0x100_0000 {
        lemma_mul_inequality(0x100_0000, down as int, unit as int);
        lemma_mul_is_commutative(down as int, unit as int);
    }
}

/// The nearest single-precision number to `value`, as `as` gives it.
pub fn f32_from_u32(value: u32) -> (bits: u32)
    ensures
        bits == f32_bits(value),
{
    if value == 0 {
        return 0;
    }
    let mut magnitude: u32 = 0;
    let mut top: u32 = value;
    proof {
        lemma_magnitude(value);
    }
    while top > 1
        invariant
            top >= 1,
            log2_floor(value as nat) == magnitude + log2_floor(top as nat),
            log2_floor(value as nat) <= 31,
        decreases top,
    {
        top = top / 2;
        magnitude = magnitude + 1;
    }
    let digits: u32 = if magnitude <= 23 {
        proof {
            lemma_small_digits(value, magnitude as nat);
            lemma_u32_shl_is_mul(value, (23 - magnitude) as u32);
        }
        value << (23 - magnitude)
    } else {
        proof {
            lemma_large_digits(value, magnitude as nat);
            lemma_u32_shl_is_mul(1, (magnitude - 23) as u32);
        }
        let unit: u32 = 1u32 << (magnitude - 23);
        let down: u32 = value / unit;
        let rest: u32 = value % unit;
        if 2 * rest > unit || 2 * rest == unit && down % 2 == 1 {
            down + 1
        } else {
            down
        }
    };
    (126 + magnitude) * 0x80_0000 + digits
}

/// The largest whole number that the number reaches and a `u32` holds, as `floor` and `as` give it.
pub fn f32_floor_to_u32(bits: u32) -> (value: u32)
    ensures
        value == f32_floor(bits),
{
    let exponent: u32 = bits / 0x80_0000 % 0x100;
    let fraction: u32 = bits % 0x80_0000;
    let digits: u32 = 0x80_0000 + fraction;
    proof {
        lemma2_to64();
    }
    if bits >= 0x8000_0000 || exponent == 255 && fraction != 0 || exponent < 127 {
        0
    } else if exponent <= 150 {
        proof {
            lemma_pow2_pos((150 - exponent) as nat);
            if 150 - exponent < 23 {
                lemma_pow2_strictly_increases((150 - exponent) as nat, 23);
            }
            lemma_u32_shl_is_mul(1, (150 - exponent) as u32);
        }
        digits / (1u32 << (150 - exponent))
    } else if exponent > 158 {
        proof {
            if exponent > 159 {
                lemma_pow2_strictly_increases(9, (exponent - 150) as nat);
            }
            lemma_mul_inequality(512, pow2((exponent - 150) as nat) as int, digits as int);
            lemma_mul_is_commutative(pow2((exponent - 150) as nat) as int, digits as int);
        }
        u32::MAX
    } else {
        proof {
            lemma_pow2_pos((exponent - 150) as nat);
            if exponent < 158 {
                lemma_pow2_strictly_increases((exponent - 150) as nat, 8);
            }
            lemma_mul_inequality(pow2((exponent - 150) as nat) as int, 256, digits as int);
            lemma_mul_is_commutative(pow2((exponent - 150) as nat) as int, digits as int);
            lemma_u32_shl_is_mul(digits, (exponent - 150) as u32);
        }
        digits << (exponent - 150)
    }
}

/// Taking the floor of the nearest single-precision number gives the value rounded to twenty-four
/// digits, as far as a `u32` goes.
pub proof fn law_floor_undoes_conversion(value: u32)
    ensures
        0 <= f32_bits(value) <= u32::MAX,
        f32_floor(f32_bits(value) as u32) == (if f32_rounded(value) > u32::MAX {
            u32::MAX as nat
        } else {
            f32_rounded(value)
        }),
        value <= 0x100_0000 ==> f32_floor(f32_bits(value) as u32) == value,
{
    lemma2_to64();
    if value != 0 {
        let magnitude = log2_floor(value as nat);
        lemma_magnitude(value);
        let bits = f32_bits(value) as u32;
        if magnitude <= 23 {
            let scale = pow2((23 - magnitude) as nat);
            lemma_small_digits(value, magnitude);
            lemma_pow2_pos((23 - magnitude) as nat);
            assert(f32_exponent(bits) == 127 + magnitude);
            assert(0x80_0000 + f32_fraction(bits) == value * scale);
            lemma_div_multiples_vanish(value as int, scale as int);
            lemma_mul_is_commutative(value as int, scale as int);
        } else {
            let unit = pow2((magnitude - 23) as nat);
            let digits = round_even(value as nat, unit);
            lemma_large_digits(value, magnitude);
            if digits < 0x100_0000 {
                assert(f32_exponent(bits) == 127 + magnitude);
                assert(0x80_0000 + f32_fraction(bits) == digits);
            } else {
                assert(f32_exponent(bits) == 128 + magnitude);
                assert(f32_fraction(bits) == 0);
                lemma_pow2_adds(1, (magnitude - 23) as nat);
                assert(pow2((magnitude - 22) as nat) == 2 * unit);
                assert(0x80_0000 * (2 * unit) == 0x100_0000 * unit);
            }
            if value <= 0x100_0000 {
                if magnitude > 24 {
                    lemma_pow2_strictly_increases(24, magnitude);
                }
                assert(value == 0x100_0000 && unit == 2);
                assert(round_even(0x100_0000, 2) == 0x80_0000);
            }
        }
    }
}

/// Conversion moves a value by no more than half of the last digit that it keeps.
pub proof fn law_conversion_is_nearest(value: u32)
    requires
        value >= 0x100_0000,
    ensures
        ({
            let unit = pow2((log2_floor(value as nat) - 23) as nat);
            &&& 2 * (f32_rounded(value) - value) <= unit
            &&& 2 * (value - f32_rounded(value)) <= unit
        }),
{
    lemma2_to64();
    lemma_magnitude(value);
    let magnitude = log2_floor(value as nat);
    if magnitude < 23 {
        lemma_pow2_strictly_increases(magnitude + 1, 24);
    }
    let unit = pow2((magnitude - 23) as nat);
    lemma_large_digits(value, magnitude);
    lemma_fundamental_div_mod(value as int, unit as int);
    lemma_mod_bound(value as int, unit as int);
    let down = value as nat / unit;
    assert((down + 1) * unit == unit * down + unit) by (nonlinear_arith);
    lemma_mul_is_commutative(down as int, unit as int);
}

/// The number that a pattern of bits stands for, times 2^149: the fraction alone where the exponent is
/// zero, else with a leading digit and moved by the exponent.
pub open spec fn f32_scaled(bits: u32) -> nat {
    let exponent = (bits / 8388608 % 256) as nat;
    let fraction = (bits % 8388608) as nat;
    if exponent == 0 {
        fraction
    } else {
        (8388608 + fraction) * pow2((exponent - 1) as nat)
    }
}

/// A whole number up to 2^24 is converted to the pattern that stands for it, without a sign.
pub proof fn law_conversion_is_exact_up_to_24_digits(value: u32)
    requires
        value <= 16777216,
    ensures
        f32_bits(value) < 0x8000_0000,
        f32_scaled(f32_bits(value) as u32) == value * pow2(149),
{
    lemma2_to64();
    if value == 0 {
        assert(0 * pow2(149) == 0) by (nonlinear_arith);
    } else {
        let magnitude = log2_floor(value as nat);
        lemma_magnitude(value);
        if magnitude > 24 {
            lemma_pow2_strictly_increases(24, magnitude);
        }
        let bits = f32_bits(value) as u32;
        if magnitude <= 23 {
            let scale = pow2((23 - magnitude) as nat);
            lemma_small_digits(value, magnitude);
            assert(bits / 8388608 % 256 == 127 + magnitude);
            assert(8388608 + bits % 8388608 == value * scale);
            lemma_pow2_adds((23 - magnitude) as nat, 126 + magnitude);
            assert((value * scale) * pow2(126 + magnitude) == value * (scale * pow2(126 + magnitude)))
                by (nonlinear_arith);
        } else {
            assert(value == 16777216 && magnitude == 24);
            assert(round_even(16777216, 2) == 8388608);
            assert(bits == 151 * 8388608);
            lemma_pow2_adds(1, 149);
            lemma_pow2_adds(24, 126);
            assert(8388608 * pow2(150) == 16777216 * pow2(149));
        }
    }
}

proof fn lemma_floor_small(digits: nat, exponent: nat)
    requires
        127 <= exponent <= 150,
    ensures
        ({
            let floor = digits / pow2((150 - exponent) as nat);
            let scaled = digits * pow2((exponent - 1) as nat);
            floor * pow2(149) <= scaled < (floor + 1) * pow2(149)
        }),
{
    let unit = pow2((150 - exponent) as nat);
    let rest = pow2((exponent - 1) as nat);
    let floor = digits / unit;
    lemma_pow2_pos((150 - exponent) as nat);
    lemma_pow2_pos((exponent - 1) as nat);
    lemma_pow2_adds((150 - exponent) as nat, (exponent - 1) as nat);
    lemma_fundamental_div_mod(digits as int, unit as int);
    lemma_mod_bound(digits as int, unit as int);
    assert(floor * (unit * rest) <= digits * rest < (floor + 1) * (unit * rest)) by (nonlinear_arith)
        requires
            unit * floor <= digits < unit * floor + unit,
            rest > 0,
    ;
}

/// The floor of a pattern of bits is the largest whole number that is not above the number that it stands
/// for, or the greatest `u32` where that is below it. Negative patterns, and those that stand for no
/// number, give zero, and infinity gives the greatest `u32`.
pub proof fn law_floor_is_the_largest_below(bits: u32)
    ensures
        bits >= 0x8000_0000 ==> f32_floor(bits) == 0,
        0x7f80_0000 < bits < 0x8000_0000 ==> f32_floor(bits) == 0,
        bits == 0x7f80_0000 ==> f32_floor(bits) == u32::MAX,
        bits < 0x7f80_0000 ==> {
            let floor = f32_floor(bits);
            let scaled = f32_scaled(bits);
            &&& floor <= u32::MAX
            &&& floor * pow2(149) <= scaled
            &&& floor < u32::MAX ==> scaled < (floor + 1) * pow2(149)
        },
{
    let exponent = f32_exponent(bits);
    let digits = 0x80_0000 + f32_fraction(bits);
    lemma2_to64();
    lemma_pow2_pos(149);
    if bits < 0x7f80_0000 {
        assert(exponent < 255);
        if exponent < 127 {
            lemma_pow2_adds(24, 125);
            lemma_pow2_pos(125);
            if exponent > 0 {
                if exponent < 126 {
                    lemma_pow2_strictly_increases((exponent - 1) as nat, 125);
                }
                lemma_mul_inequality(
                    pow2((exponent - 1) as nat) as int,
                    pow2(125) as int,
                    digits as int,
                );
                lemma_mul_is_commutative(pow2((exponent - 1) as nat) as int, digits as int);
                lemma_mul_is_commutative(pow2(125) as int, digits as int);
                lemma_mul_strict_inequality(digits as int, 0x100_0000, pow2(125) as int);
            } else {
                lemma_mul_inequality(1, pow2(125) as int, 0x100_0000);
                lemma_mul_is_commutative(pow2(125) as int, 0x100_0000);
            }
            assert(f32_scaled(bits) < pow2(149));
            assert(0 * pow2(149) == 0 && (0 + 1) * pow2(149) == pow2(149)) by (nonlinear_arith);
        } else if exponent <= 150 {
            lemma_floor_small(digits, exponent);
            lemma_floor_fits(digits, (150 - exponent) as nat);
        } else {
            let moved = digits * pow2((exponent - 150) as nat);
            lemma_pow2_adds((exponent - 150) as nat, 149);
            assert(digits * (pow2((exponent - 150) as nat) * pow2(149)) == moved * pow2(149))
                by (nonlinear_arith)
                requires
                    moved == digits * pow2((exponent - 150) as nat),
            ;
            lemma_mul_inequality(f32_floor(bits) as int, moved as int, pow2(149) as int);
            lemma_mul_strict_inequality(moved as int, moved as int + 1, pow2(149) as int);
        }
    }
}

proof fn lemma_floor_fits(digits: nat, shift: nat)
    requires
        digits < 0x100_0000,
    ensures
        digits / pow2(shift) <= digits,
{
    let unit = pow2(shift);
    lemma_pow2_pos(shift);
    assert(digits / unit <= digits) by (nonlinear_arith)
        requires
            unit >= 1,
            digits >= 0,
    ;
}

}
