//! Binary floating-point values held as their bit patterns, so that their
//! order, finiteness and integral values are decided by integer arithmetic.

use crate::text::{cat, cat_signed, signed_decimal};
use vstd::arithmetic::power2::*;
use vstd::prelude::*;

verus! {

/// A double together with the single nearest to it. Whoever computes with
/// floating point builds the pair; the station only compares and carries it.
#[derive(Debug, Clone, Copy, PartialEq, Eq, Structural)]
pub struct Real {
    pub double: u64,
    pub single: u32,
}

pub const DOUBLE_HIDDEN: u64 = 0x10_0000_0000_0000;

pub const DOUBLE_SIGN: u64 = 0x8000_0000_0000_0000;

pub const SINGLE_HIDDEN: u32 = 0x80_0000;

pub const SINGLE_SIGN: u32 = 0x8000_0000;

/// The largest finite single, as a double.
pub const SINGLE_MAX: u64 = 0x47EF_FFFF_E000_0000;

/// The magnitude that the exponent and fraction bits of a double stand for, in
/// units of two to the power of -1074. Infinity lies above every finite one.
pub open spec fn double_magnitude(bits: nat) -> nat {
    let exponent = bits / (DOUBLE_HIDDEN as nat);
    let fraction = bits % (DOUBLE_HIDDEN as nat);
    if exponent == 0 {
        fraction
    } else {
        (DOUBLE_HIDDEN as nat + fraction) * pow2((exponent - 1) as nat)
    }
}

pub open spec fn double_finite(bits: u64) -> bool {
    (bits as nat % (DOUBLE_SIGN as nat)) / (DOUBLE_HIDDEN as nat) != 2047
}

pub open spec fn double_nan(bits: u64) -> bool {
    bits as nat % (DOUBLE_SIGN as nat) > 2047 * (DOUBLE_HIDDEN as nat)
}

/// The value of a double in units of two to the power of -1074.
pub open spec fn double_value(bits: u64) -> int {
    let magnitude = double_magnitude(bits as nat % (DOUBLE_SIGN as nat)) as int;
    if bits >= DOUBLE_SIGN {
        -magnitude
    } else {
        magnitude
    }
}

pub open spec fn single_finite(bits: u32) -> bool {
    (bits as nat % (SINGLE_SIGN as nat)) / (SINGLE_HIDDEN as nat) != 255
}

/// The value of a single in units of two to the power of -1074.
pub open spec fn single_value(bits: u32) -> int {
    let unsigned = bits as nat % (SINGLE_SIGN as nat);
    let exponent = unsigned / (SINGLE_HIDDEN as nat);
    let fraction = unsigned % (SINGLE_HIDDEN as nat);
    let magnitude: int = if exponent == 0 {
        (fraction * pow2(925)) as int
    } else {
        ((SINGLE_HIDDEN as nat + fraction) * pow2((exponent + 924) as nat)) as int
    };
    if bits >= SINGLE_SIGN {
        -magnitude
    } else {
        magnitude
    }
}

/// The double has the sign and value of the single; an infinity or something
/// that is not a number keeps its fraction.
pub open spec fn widened(single: u32, double: u64) -> bool {
    let fraction = single as nat % (SINGLE_HIDDEN as nat);
    &&& (double >= DOUBLE_SIGN) == (single >= SINGLE_SIGN)
    &&& if single_finite(single) {
        double_value(double) == single_value(single)
    } else {
        double as nat % (DOUBLE_SIGN as nat) == 2047 * (DOUBLE_HIDDEN as nat) + fraction
            * 0x2000_0000
    }
}

/// The double of a single.
pub open spec fn widen(single: u32) -> Real {
    Real { double: choose|double: u64| widened(single, double), single }
}

/// The integer `number` in units of two to the power of -1074.
pub open spec fn whole(number: int) -> int {
    number * pow2(1074)
}

/// `left <= right`, false where either is not a number.
pub open spec fn double_at_most(left: u64, right: u64) -> bool {
    !double_nan(left) && !double_nan(right) && double_value(left) <= double_value(right)
}

/// The magnitude of exponent and fraction bits, where fractions count up to a
/// unit, in units of the smallest one.
pub open spec fn scaled_magnitude(bits: nat, unit: nat) -> nat {
    let exponent = bits / unit;
    let fraction = bits % unit;
    if exponent == 0 {
        fraction
    } else {
        (unit + fraction) * pow2((exponent - 1) as nat)
    }
}

proof fn lemma_magnitude_increases(a: nat, b: nat, unit: nat)
    requires
        a < b,
        unit > 0,
    ensures
        scaled_magnitude(a, unit) < scaled_magnitude(b, unit),
{
    let ea = a / unit;
    let fa = a % unit;
    let eb = b / unit;
    let fb = b % unit;
    assert(a == ea * unit + fa && b == eb * unit + fb) by {
        vstd::arithmetic::div_mod::lemma_fundamental_div_mod(a as int, unit as int);
        vstd::arithmetic::div_mod::lemma_fundamental_div_mod(b as int, unit as int);
    }
    assert(ea <= eb) by {
        vstd::arithmetic::div_mod::lemma_div_is_ordered(a as int, b as int, unit as int);
    }
    if ea == eb {
        if ea > 0 {
            let p = pow2((ea - 1) as nat);
            lemma_pow2_pos((ea - 1) as nat);
            assert((unit + fa) * p < (unit + fb) * p) by (nonlinear_arith)
                requires
                    fa < fb,
                    p > 0,
            ;
        }
    } else {
        let low = pow2(ea);
        lemma_pow2_pos(ea);
        assert(scaled_magnitude(a, unit) < unit * low) by {
            if ea == 0 {
                lemma2_to64();
            } else {
                let p = pow2((ea - 1) as nat);
                lemma_pow2_pos((ea - 1) as nat);
                lemma_pow2_unfold(ea);
                assert((unit + fa) * p < unit * (2 * p)) by (nonlinear_arith)
                    requires
                        fa < unit,
                        p > 0,
                ;
            }
        }
        let high = pow2((eb - 1) as nat);
        assert(low <= high) by {
            if ea < eb - 1 {
                lemma_pow2_strictly_increases(ea, (eb - 1) as nat);
            }
        }
        assert(unit * low <= (unit + fb) * high) by (nonlinear_arith)
            requires
                low <= high,
        ;
    }
}

/// The order of the exponent and fraction bits is the order of the magnitudes.
pub proof fn law_bits_order_is_magnitude_order(a: nat, b: nat)
    ensures
        a <= b <==> double_magnitude(a) <= double_magnitude(b),
{
    let unit = DOUBLE_HIDDEN as nat;
    if a < b {
        lemma_magnitude_increases(a, b, unit);
    }
    if b < a {
        lemma_magnitude_increases(b, a, unit);
    }
}

/// Two singles with one sign and one value are the same.
proof fn lemma_single_is_unique(left: u32, right: u32)
    requires
        (left >= SINGLE_SIGN) == (right >= SINGLE_SIGN),
        single_value(left) == single_value(right),
    ensures
        left == right,
{
    let unit = SINGLE_HIDDEN as nat;
    let a = left as nat % (SINGLE_SIGN as nat);
    let b = right as nat % (SINGLE_SIGN as nat);
    lemma_single_magnitude(left);
    lemma_single_magnitude(right);
    let scale = pow2(925) as int;
    lemma_pow2_pos(925);
    if a != b {
        let x = scaled_magnitude(a, unit) as int;
        let y = scaled_magnitude(b, unit) as int;
        if a < b {
            lemma_magnitude_increases(a, b, unit);
        } else {
            lemma_magnitude_increases(b, a, unit);
        }
        assert(x * scale != y * scale) by (nonlinear_arith)
            requires
                x != y,
                scale > 0,
        ;
    }
}

proof fn lemma_single_magnitude(bits: u32)
    ensures
        ({
            let magnitude = scaled_magnitude(
                bits as nat % (SINGLE_SIGN as nat),
                SINGLE_HIDDEN as nat,
            ) * pow2(925);
            single_value(bits) == (if bits >= SINGLE_SIGN {
                -magnitude
            } else {
                magnitude as int
            })
        }),
{
    let unsigned = bits as nat % (SINGLE_SIGN as nat);
    let exponent = unsigned / (SINGLE_HIDDEN as nat);
    let fraction = unsigned % (SINGLE_HIDDEN as nat);
    if exponent > 0 {
        let power = pow2((exponent - 1) as nat);
        lemma_pow2_adds((exponent - 1) as nat, 925);
        let mantissa = SINGLE_HIDDEN as nat + fraction;
        assert(mantissa * (power * pow2(925)) == mantissa * power * pow2(925)) by (nonlinear_arith);
    }
}

/// Integers of a magnitude below this have a single and a double of their own.
pub const WHOLE_LIMIT: i64 = 0x100_0000;

/// How far apart the singles around a magnitude stand, where they are integers.
pub open spec fn single_unit(magnitude: nat) -> nat
    decreases magnitude,
{
    if magnitude < WHOLE_LIMIT {
        1
    } else {
        2 * single_unit(magnitude / 2)
    }
}

/// How many units of the singles a magnitude is, rounded to the nearest, and to
/// the even one of two that are as near.
pub open spec fn nearest_units(magnitude: nat) -> nat {
    let unit = single_unit(magnitude);
    let quotient = magnitude / unit;
    let rest = magnitude % unit;
    if 2 * rest > unit || (2 * rest == unit && quotient % 2 == 1) {
        quotient + 1
    } else {
        quotient
    }
}

/// The single nearest to an integer, as an integer.
pub open spec fn nearest_single(number: int) -> int {
    if number < 0 {
        -(nearest_units((-number) as nat) * single_unit((-number) as nat))
    } else {
        (nearest_units(number as nat) * single_unit(number as nat)) as int
    }
}

/// The number is an integer, with the single nearest to it; zero is the positive
/// one.
pub open spec fn is_whole_real(number: int, found: Real) -> bool {
    &&& found.equals_integer(number)
    &&& (found.double >= DOUBLE_SIGN) == (number < 0)
    &&& single_finite(found.single)
    &&& single_value(found.single) == whole(nearest_single(number))
    &&& (found.single >= SINGLE_SIGN) == (number < 0)
}

/// The single nearest to an integer of a magnitude below `WHOLE_LIMIT` is that
/// integer.
proof fn lemma_small_integers_are_singles(number: int)
    requires
        -WHOLE_LIMIT < number < WHOLE_LIMIT,
    ensures
        nearest_single(number) == number,
{
    let magnitude: nat = if number < 0 {
        (-number) as nat
    } else {
        number as nat
    };
    assert(magnitude / 1 == magnitude && magnitude % 1 == 0);
    assert(nearest_units(magnitude) == magnitude);
    assert(magnitude * 1 == magnitude);
}

/// The number that an integer is.
pub open spec fn whole_real(number: int) -> Real {
    choose|found: Real| is_whole_real(number, found)
}

proof fn lemma_whole_real_is_unique(number: int, found: Real)
    requires
        is_whole_real(number, found),
    ensures
        whole_real(number) == found,
{
    let other = whole_real(number);
    lemma_single_is_unique(found.single, other.single);
    let a = found.double as nat % (DOUBLE_SIGN as nat);
    let b = other.double as nat % (DOUBLE_SIGN as nat);
    law_bits_order_is_magnitude_order(a, b);
    law_bits_order_is_magnitude_order(b, a);
}

impl Real {
    pub open spec fn finite(self) -> bool {
        double_finite(self.double)
    }

    /// The value in units of two to the power of -1074.
    pub open spec fn value(self) -> int {
        double_value(self.double)
    }

    /// The value is the integer `number`.
    pub open spec fn equals_integer(self, number: int) -> bool {
        self.finite() && self.value() == whole(number)
    }

    /// `min <= self <= max`, false where one is not a number.
    pub open spec fn within(self, min: Real, max: Real) -> bool {
        double_at_most(min.double, self.double) && double_at_most(self.double, max.double)
    }

    pub fn is_finite(self) -> (result: bool)
        ensures
            result == self.finite(),
    {
        (self.double % DOUBLE_SIGN) / DOUBLE_HIDDEN != 2047
    }

    /// `self <= other`.
    pub fn at_most(self, other: Real) -> (result: bool)
        ensures
            result == double_at_most(self.double, other.double),
    {
        let left: u64 = self.double % DOUBLE_SIGN;
        let right: u64 = other.double % DOUBLE_SIGN;
        if left > 2047 * DOUBLE_HIDDEN || right > 2047 * DOUBLE_HIDDEN {
            return false;
        }
        proof {
            law_bits_order_is_magnitude_order(left as nat, right as nat);
            law_bits_order_is_magnitude_order(right as nat, left as nat);
            law_bits_order_is_magnitude_order(left as nat, 0);
            law_bits_order_is_magnitude_order(right as nat, 0);
            assert(double_magnitude(0) == 0);
        }
        if self.double >= DOUBLE_SIGN {
            if other.double >= DOUBLE_SIGN {
                right <= left
            } else {
                true
            }
        } else if other.double >= DOUBLE_SIGN {
            left == 0 && right == 0
        } else {
            left <= right
        }
    }

    pub fn is_within(self, min: Real, max: Real) -> (result: bool)
        ensures
            result == self.within(min, max),
    {
        min.at_most(self) && self.at_most(max)
    }

    /// The value as an integer of magnitude below two to the power of 53,
    /// where it is one.
    pub open spec fn whole_value(self) -> Option<int> {
        if self.integer_within(-SMALL_LIMIT + 1, SMALL_LIMIT - 1) {
            Some(
                choose|number: int|
                    -SMALL_LIMIT + 1 <= number <= SMALL_LIMIT - 1 && #[trigger] self.equals_integer(
                        number,
                    ),
            )
        } else {
            None
        }
    }

    /// Finds the integer that the value is, where its magnitude is below two to
    /// the power of 53.
    pub fn whole_number(self) -> (result: Option<i64>)
        ensures
            match result {
                Some(number) => self.whole_value() == Some(number as int) && -SMALL_LIMIT < number
                    < SMALL_LIMIT,
                None => self.whole_value() is None,
            },
    {
        let result = self.small_integer();
        proof {
            if let Some(number) = result {
                lemma_whole_value(self, number as int);
            }
        }
        result
    }

    /// The integer that the value is, if it is a small one.
    pub fn small_integer(self) -> (result: Option<i64>)
        ensures
            match result {
                Some(number) => -SMALL_LIMIT < number < SMALL_LIMIT && self.equals_integer(
                    number as int,
                ),
                None => forall|number: int|
                    -SMALL_LIMIT < number < SMALL_LIMIT ==> !self.equals_integer(number),
            },
    {
        let unsigned: u64 = self.double % DOUBLE_SIGN;
        let exponent: u64 = unsigned / DOUBLE_HIDDEN;
        let fraction: u64 = unsigned % DOUBLE_HIDDEN;
        let ghost unit = pow2(1074) as int;
        proof {
            lemma_pow2_pos(1074);
            lemma2_to64();
            lemma2_to64_rest();
            lemma_pow2_strictly_increases(53, 1074);
            assert(0 * unit == 0);
        }
        if exponent == 2047 {
            return None;
        }
        if exponent == 0 {
            if fraction == 0 {
                return Some(0);
            }
            proof {
                lemma_no_multiple_between(fraction as int, unit);
            }
            return None;
        }
        let mantissa: u64 = DOUBLE_HIDDEN + fraction;
        let ghost power = pow2((exponent - 1) as nat) as int;
        let ghost magnitude = mantissa * power;
        proof {
            lemma_pow2_pos((exponent - 1) as nat);
        }
        if exponent > 1075 {
            proof {
                lemma_pow2_unfold(1075);
                if exponent > 1076 {
                    lemma_pow2_strictly_increases(1075, (exponent - 1) as nat);
                }
                assert(magnitude >= SMALL_LIMIT * unit) by (nonlinear_arith)
                    requires
                        magnitude == mantissa * power,
                        mantissa >= DOUBLE_HIDDEN,
                        power >= 2 * unit,
                        unit > 0,
                ;
                assert forall|number: int| -SMALL_LIMIT < number < SMALL_LIMIT implies
                    !self.equals_integer(number) by {
                    assert(-SMALL_LIMIT * unit < number * unit < SMALL_LIMIT * unit)
                        by (nonlinear_arith)
                        requires
                            -SMALL_LIMIT < number < SMALL_LIMIT,
                            unit > 0,
                    ;
                }
            }
            return None;
        }
        let shift: u64 = 1075 - exponent;
        if shift >= 53 {
            proof {
                lemma_pow2_adds(53, (exponent - 1) as nat);
                if 53 + exponent - 1 < 1074 {
                    lemma_pow2_strictly_increases((53 + exponent - 1) as nat, 1074);
                }
                assert(0 < magnitude < pow2(53) * power) by (nonlinear_arith)
                    requires
                        magnitude == mantissa * power,
                        0 < mantissa < pow2(53),
                        power > 0,
                ;
                lemma_no_multiple_between(magnitude, unit);
            }
            return None;
        }
        let step: u64 = power_of_two(shift);
        proof {
            lemma_pow2_adds(shift as nat, (exponent - 1) as nat);
            lemma_pow2_pos(shift as nat);
        }
        let quotient: u64 = mantissa / step;
        if mantissa % step != 0 {
            proof {
                assert forall|number: int| #[trigger] whole(number) != magnitude && whole(number)
                    != -magnitude by {
                    lemma_not_divisible(mantissa as int, step as int, power, number);
                    lemma_not_divisible(mantissa as int, step as int, power, -number);
                    assert((-number) * (step * power) == -(number * (step * power)))
                        by (nonlinear_arith);
                }
            }
            return None;
        }
        proof {
            assert(mantissa == quotient * step) by {
                vstd::arithmetic::div_mod::lemma_fundamental_div_mod(mantissa as int, step as int);
                assert(step * quotient == quotient * step) by (nonlinear_arith);
            }
            assert(quotient * (step * power) == (quotient * step) * power) by (nonlinear_arith);
            assert((-quotient) * unit == -(quotient * unit)) by (nonlinear_arith);
            assert(quotient <= mantissa) by (nonlinear_arith)
                requires
                    mantissa == quotient * step,
                    step >= 1,
                    quotient >= 0,
            ;
        }
        if self.double >= DOUBLE_SIGN {
            Some(-(quotient as i64))
        } else {
            Some(quotient as i64)
        }
    }

    /// The value is an integer between two bounds.
    pub open spec fn integer_within(self, min: int, max: int) -> bool {
        exists|number: int| min <= number <= max && #[trigger] self.equals_integer(number)
    }

    pub fn is_integer_within(self, min: i64, max: i64) -> (result: bool)
        requires
            -SMALL_LIMIT < min,
            max < SMALL_LIMIT,
        ensures
            result == self.integer_within(min as int, max as int),
    {
        match self.small_integer() {
            Some(found) => {
                proof {
                    assert(self.equals_integer(found as int));
                    if self.integer_within(min as int, max as int) {
                        let number = choose|number: int|
                            min <= number <= max && #[trigger] self.equals_integer(number);
                        lemma_whole_is_injective(found as int, number);
                    }
                }
                min <= found && found <= max
            },
            None => false,
        }
    }

    /// The integer part, toward zero.
    pub open spec fn truncated(self) -> int {
        let unit = pow2(1074) as int;
        if self.value() < 0 {
            -((-self.value()) / unit)
        } else {
            self.value() / unit
        }
    }

    /// The integer part, at most as far from zero as the type reaches; zero
    /// where it is not a number.
    pub open spec fn saturated(self, min: int, max: int) -> int {
        if double_nan(self.double) {
            0
        } else if self.truncated() < min {
            min
        } else if self.truncated() > max {
            max
        } else {
            self.truncated()
        }
    }

    pub fn saturating_i32(self) -> (result: i32)
        ensures
            result == self.saturated(i32::MIN as int, i32::MAX as int),
    {
        let unsigned: u64 = self.double % DOUBLE_SIGN;
        let exponent: u64 = unsigned / DOUBLE_HIDDEN;
        let fraction: u64 = unsigned % DOUBLE_HIDDEN;
        if unsigned > 2047 * DOUBLE_HIDDEN {
            return 0;
        }
        let ghost unit = pow2(1074) as int;
        let ghost magnitude = double_magnitude(unsigned as nat) as int;
        proof {
            lemma_pow2_pos(1074);
            lemma2_to64();
            lemma2_to64_rest();
        }
        if exponent < 1023 {
            proof {
                law_bits_order_is_magnitude_order(1023 * DOUBLE_HIDDEN as nat, unsigned as nat);
                lemma_pow2_adds(52, 1022);
                assert(magnitude < unit);
                vstd::arithmetic::div_mod::lemma_basic_div(magnitude, unit);
            }
            return 0;
        }
        let ghost power = pow2((exponent - 1) as nat) as int;
        let mantissa: u64 = DOUBLE_HIDDEN + fraction;
        proof {
            lemma_pow2_pos((exponent - 1) as nat);
        }
        if exponent >= 1054 {
            proof {
                law_bits_order_is_magnitude_order(1054 * DOUBLE_HIDDEN as nat, unsigned as nat);
                lemma_pow2_adds(52, 1053);
                lemma_pow2_adds(31, 1074);
                assert(magnitude >= pow2(31) * unit);
                vstd::arithmetic::div_mod::lemma_div_is_ordered(
                    pow2(31) * unit,
                    magnitude,
                    unit,
                );
                vstd::arithmetic::div_mod::lemma_div_multiples_vanish(pow2(31) as int, unit);
                assert(pow2(31) * unit == unit * pow2(31)) by (nonlinear_arith);
                assert(magnitude >= unit) by (nonlinear_arith)
                    requires
                        magnitude >= pow2(31) * unit,
                        pow2(31) >= 1,
                        unit > 0,
                ;
            }
            return if self.double >= DOUBLE_SIGN {
                i32::MIN
            } else {
                i32::MAX
            };
        }
        let shift: u64 = 1075 - exponent;
        let step: u64 = power_of_two(shift);
        let quotient: u64 = mantissa / step;
        proof {
            lemma_pow2_adds(shift as nat, (exponent - 1) as nat);
            lemma_pow2_pos(shift as nat);
            assert(magnitude == power * mantissa) by (nonlinear_arith)
                requires
                    magnitude == mantissa * power,
            ;
            assert(unit == power * step) by (nonlinear_arith)
                requires
                    unit == step * power,
            ;
            vstd::arithmetic::div_mod::lemma_div_multiples_vanish_quotient(
                power,
                mantissa as int,
                step as int,
            );
            lemma_pow2_adds(22, 31);
            if shift > 22 {
                lemma_pow2_strictly_increases(22, shift as nat);
            }
            assert(quotient < 0x8000_0000) by {
                vstd::arithmetic::div_mod::lemma_fundamental_div_mod(
                    mantissa as int,
                    step as int,
                );
                assert(quotient < 0x8000_0000) by (nonlinear_arith)
                    requires
                        mantissa < 0x20_0000_0000_0000,
                        step >= 0x40_0000,
                        mantissa >= step * quotient,
                ;
            }
            assert(magnitude > 0) by (nonlinear_arith)
                requires
                    magnitude == power * mantissa,
                    power > 0,
                    mantissa > 0,
            ;
        }
        if self.double >= DOUBLE_SIGN {
            -(quotient as i32)
        } else {
            quotient as i32
        }
    }

    pub fn saturating_i16(self) -> (result: i16)
        ensures
            result == self.saturated(i16::MIN as int, i16::MAX as int),
    {
        let wide: i32 = self.saturating_i32();
        if wide < i16::MIN as i32 {
            i16::MIN
        } else if wide > i16::MAX as i32 {
            i16::MAX
        } else {
            wide as i16
        }
    }

    /// The two are numbers of the same value.
    pub open spec fn same(self, other: Real) -> bool {
        !double_nan(self.double) && !double_nan(other.double) && self.value() == other.value()
    }

    pub fn equals(self, other: Real) -> (result: bool)
        ensures
            result == self.same(other),
    {
        self.at_most(other) && other.at_most(self)
    }

    pub fn is_integer(self, number: i32) -> (result: bool)
        ensures
            result == self.equals_integer(number as int),
    {
        match self.small_integer() {
            Some(found) => {
                proof {
                    lemma_whole_is_injective(found as int, number as int);
                }
                found == number as i64
            },
            None => false,
        }
    }

    /// The double that has the value of an integer, with the single nearest to it.
    pub fn from_integer(number: i32) -> (result: Real)
        ensures
            result.equals_integer(number as int),
            -0x100_0000 < number < 0x100_0000 ==> single_value(result.single) == whole(
                number as int,
            ),
            result == whole_real(number as int),
            is_whole_real(number as int, result),
    {
        if number == 0 {
            proof {
                lemma_small_integers_are_singles(0);
                assert(0 * pow2(1074) == 0);
                assert(0 * pow2(925) == 0);
                lemma_whole_real_is_unique(0, Real { double: 0, single: 0 });
            }
            return Real { double: 0, single: 0 };
        }
        let negative = number < 0;
        let magnitude: u64 = if negative {
            (-(number as i64)) as u64
        } else {
            number as u64
        };
        let double = pack_double(negative, magnitude, 1074);
        proof {
            assert((-magnitude) * pow2(1074) == -(magnitude * pow2(1074))) by (nonlinear_arith);
        }
        let single = round_single(negative, magnitude);
        let result = Real { double, single };
        proof {
            let nearest = nearest_units(magnitude as nat) * single_unit(magnitude as nat);
            assert((-nearest) * pow2(1074) == -(nearest * pow2(1074))) by (nonlinear_arith);
            lemma_whole_real_is_unique(number as int, result);
            if -WHOLE_LIMIT < number < WHOLE_LIMIT {
                lemma_small_integers_are_singles(number as int);
            }
        }
        result
    }

    /// The double that has the value of a single.
    pub fn from_single(single: u32) -> (result: Real)
        ensures
            result == widen(single),
            result.finite() == single_finite(single),
            single_finite(single) ==> result.value() == single_value(single),
    {
        let unsigned: u32 = single % SINGLE_SIGN;
        let exponent: u32 = unsigned / SINGLE_HIDDEN;
        let fraction: u32 = unsigned % SINGLE_HIDDEN;
        let negative = single >= SINGLE_SIGN;
        let double: u64 = if exponent == 255 {
            let sign: u64 = if negative {
                DOUBLE_SIGN
            } else {
                0
            };
            assert(single as nat % (SINGLE_HIDDEN as nat) == fraction);
            sign + 2047 * DOUBLE_HIDDEN + (fraction as u64) * 0x2000_0000
        } else if exponent == 0 {
            if fraction == 0 {
                proof {
                    assert(0 * pow2(925) == 0);
                }
                if negative {
                    DOUBLE_SIGN
                } else {
                    0
                }
            } else {
                pack_double(negative, fraction as u64, 925)
            }
        } else {
            pack_double(negative, SINGLE_HIDDEN as u64 + fraction as u64, exponent as u64 + 924)
        };
        proof {
            assert(widened(single, double));
            lemma_widened_is_unique(single, double, widen(single).double);
        }
        Real { double, single }
    }
}

proof fn lemma_widened_is_unique(single: u32, left: u64, right: u64)
    requires
        widened(single, left),
        widened(single, right),
    ensures
        left == right,
{
    if single_finite(single) {
        let a = left as nat % (DOUBLE_SIGN as nat);
        let b = right as nat % (DOUBLE_SIGN as nat);
        law_bits_order_is_magnitude_order(a, b);
        law_bits_order_is_magnitude_order(b, a);
    }
}

/// The double of value `mantissa * 2^shift`, in units of two to the power of
/// -1074.
fn pack_double(negative: bool, mantissa: u64, shift: u64) -> (result: u64)
    requires
        0 < mantissa < 2 * DOUBLE_HIDDEN,
        52 <= shift <= 2045,
    ensures
        double_finite(result),
        (result >= DOUBLE_SIGN) == negative,
        double_value(result) == (if negative {
            -(mantissa * pow2(shift as nat))
        } else {
            mantissa * pow2(shift as nat)
        }),
{
    let ghost value = mantissa * pow2(shift as nat);
    let mut mantissa: u64 = mantissa;
    let mut shift: u64 = shift;
    let ghost mut room: int = 52;
    let ghost mut floor: int = 1;
    proof {
        lemma2_to64();
    }
    while mantissa < DOUBLE_HIDDEN
        invariant
            floor <= mantissa < 2 * DOUBLE_HIDDEN,
            floor == pow2((52 - room) as nat),
            0 <= room <= 52,
            room <= shift <= 2045,
            value == mantissa * pow2(shift as nat),
        decreases room,
    {
        proof {
            lemma2_to64();
            lemma2_to64_rest();
            if room == 0 {
                assert(false);
            }
            lemma_pow2_unfold(shift as nat);
            lemma_pow2_unfold((52 - room + 1) as nat);
            if room > 1 {
                lemma_pow2_strictly_increases((52 - room + 1) as nat, 52);
            }
            assert(mantissa * (2 * pow2((shift - 1) as nat)) == (mantissa * 2) * pow2(
                (shift - 1) as nat,
            )) by (nonlinear_arith);
        }
        mantissa = mantissa * 2;
        shift = shift - 1;
        proof {
            floor = floor * 2;
            room = room - 1;
        }
    }
    let sign: u64 = if negative {
        DOUBLE_SIGN
    } else {
        0
    };
    let unsigned: u64 = (shift + 1) * DOUBLE_HIDDEN + (mantissa - DOUBLE_HIDDEN);
    proof {
        vstd::arithmetic::div_mod::lemma_fundamental_div_mod_converse(
            unsigned as int,
            DOUBLE_HIDDEN as int,
            shift + 1,
            mantissa - DOUBLE_HIDDEN,
        );
    }
    sign + unsigned
}

/// The single of value `mantissa * 2^shift`, in units of two to the power of
/// -1074.
fn pack_single(negative: bool, mantissa: u32, shift: u32) -> (result: u32)
    requires
        0 < mantissa < 2 * SINGLE_HIDDEN,
        948 <= shift <= 1178,
    ensures
        single_finite(result),
        (result >= SINGLE_SIGN) == negative,
        single_value(result) == (if negative {
            -(mantissa * pow2(shift as nat))
        } else {
            mantissa * pow2(shift as nat)
        }),
{
    let ghost value = mantissa * pow2(shift as nat);
    let mut mantissa: u32 = mantissa;
    let mut shift: u32 = shift;
    let ghost mut room: int = 23;
    let ghost mut floor: int = 1;
    proof {
        lemma2_to64();
    }
    while mantissa < SINGLE_HIDDEN
        invariant
            floor <= mantissa < 2 * SINGLE_HIDDEN,
            floor == pow2((23 - room) as nat),
            0 <= room <= 23,
            room + 925 <= shift <= 1178,
            value == mantissa * pow2(shift as nat),
        decreases room,
    {
        proof {
            lemma2_to64();
            if room == 0 {
                assert(false);
            }
            lemma_pow2_unfold(shift as nat);
            lemma_pow2_unfold((23 - room + 1) as nat);
            if room > 1 {
                lemma_pow2_strictly_increases((23 - room + 1) as nat, 23);
            }
            assert(mantissa * (2 * pow2((shift - 1) as nat)) == (mantissa * 2) * pow2(
                (shift - 1) as nat,
            )) by (nonlinear_arith);
        }
        mantissa = mantissa * 2;
        shift = shift - 1;
        proof {
            floor = floor * 2;
            room = room - 1;
        }
    }
    let sign: u32 = if negative {
        SINGLE_SIGN
    } else {
        0
    };
    let unsigned: u32 = (shift - 924) * SINGLE_HIDDEN + (mantissa - SINGLE_HIDDEN);
    proof {
        vstd::arithmetic::div_mod::lemma_fundamental_div_mod_converse(
            unsigned as int,
            SINGLE_HIDDEN as int,
            shift - 924,
            mantissa - SINGLE_HIDDEN,
        );
    }
    sign + unsigned
}

/// The single nearest to an integer.
fn round_single(negative: bool, magnitude: u64) -> (result: u32)
    requires
        0 < magnitude < 0x1_0000_0000,
    ensures
        single_finite(result),
        (result >= SINGLE_SIGN) == negative,
        ({
            let nearest = nearest_units(magnitude as nat) * single_unit(magnitude as nat);
            single_value(result) == (if negative {
                -(nearest * pow2(1074))
            } else {
                (nearest * pow2(1074)) as int
            })
        }),
{
    let mut quotient: u64 = magnitude;
    let mut unit: u64 = 1;
    let mut shift: u32 = 1074;
    proof {
        lemma2_to64();
        assert(magnitude / 1 == magnitude);
    }
    while quotient >= 0x100_0000
        invariant
            0 < magnitude < 0x1_0000_0000,
            0 < quotient,
            1 <= unit,
            unit * quotient <= magnitude,
            quotient == magnitude / unit,
            1074 <= shift <= 1178,
            unit == pow2((shift - 1074) as nat),
            shift <= 1074 + 32,
            single_unit(magnitude as nat) == unit * single_unit(quotient as nat),
        decreases quotient,
    {
        proof {
            assert(unit < 256) by (nonlinear_arith)
                requires
                    unit * quotient < 0x1_0000_0000,
                    quotient >= 0x100_0000,
                    unit >= 1,
            ;
            if shift >= 1074 + 8 {
                lemma2_to64();
                if shift > 1074 + 8 {
                    lemma_pow2_strictly_increases(8, (shift - 1074) as nat);
                }
                assert(false);
            }
            vstd::arithmetic::div_mod::lemma_div_denominator(magnitude as int, unit as int, 2);
            lemma_pow2_unfold((shift - 1074 + 1) as nat);
            assert(unit * (2 * single_unit((quotient / 2) as nat)) == (unit * 2) * single_unit(
                (quotient / 2) as nat,
            )) by (nonlinear_arith);
            assert((unit * 2) * (quotient / 2) <= unit * quotient) by (nonlinear_arith)
                requires
                    unit >= 1,
            ;
        }
        quotient = quotient / 2;
        unit = unit * 2;
        shift = shift + 1;
    }
    let rest: u64 = magnitude % unit;
    let rounded: u64 = if 2 * rest > unit || (2 * rest == unit && quotient % 2 == 1) {
        quotient + 1
    } else {
        quotient
    };
    proof {
        assert(unit * 1 == unit);
        assert(single_unit(magnitude as nat) == unit);
        assert(rounded == nearest_units(magnitude as nat));
        lemma_pow2_adds((shift - 1074) as nat, 1074);
        assert(rounded * (unit * pow2(1074)) == (rounded * unit) * pow2(1074)) by (nonlinear_arith);
    }
    if rounded == 0x100_0000 {
        proof {
            lemma_pow2_unfold((shift + 1) as nat);
            assert(0x80_0000 * (2 * pow2(shift as nat)) == 0x100_0000 * pow2(shift as nat))
                by (nonlinear_arith);
        }
        return pack_single(negative, 0x80_0000, shift + 1);
    }
    pack_single(negative, rounded as u32, shift)
}

/// There is a double of value `mantissa * 2^shift`.
proof fn lemma_double_exists(negative: bool, mantissa: nat, shift: nat) -> (result: u64)
    requires
        0 < mantissa < 2 * DOUBLE_HIDDEN,
        53 <= shift <= 1074,
        mantissa >= pow2((1074 - shift) as nat),
    ensures
        double_finite(result),
        (result >= DOUBLE_SIGN) == negative,
        double_value(result) == (if negative {
            -((mantissa * pow2(shift)) as int)
        } else {
            (mantissa * pow2(shift)) as int
        }),
    decreases 2 * DOUBLE_HIDDEN - mantissa,
{
    lemma2_to64();
    lemma2_to64_rest();
    if mantissa >= DOUBLE_HIDDEN {
        let unsigned: int = (shift + 1) * DOUBLE_HIDDEN + (mantissa - DOUBLE_HIDDEN);
        vstd::arithmetic::div_mod::lemma_fundamental_div_mod_converse(
            unsigned,
            DOUBLE_HIDDEN as int,
            shift as int + 1,
            mantissa - DOUBLE_HIDDEN,
        );
        let sign: int = if negative {
            DOUBLE_SIGN as int
        } else {
            0
        };
        (sign + unsigned) as u64
    } else {
        if 1074 - shift > 52 {
            lemma_pow2_strictly_increases(52, (1074 - shift) as nat);
        } else if 1074 - shift == 52 {
            assert(false);
        }
        lemma_pow2_unfold((1074 - shift + 1) as nat);
        lemma_pow2_unfold(shift);
        assert((mantissa * 2) * pow2((shift - 1) as nat) == mantissa * (2 * pow2(
            (shift - 1) as nat,
        ))) by (nonlinear_arith);
        lemma_double_exists(negative, mantissa * 2, (shift - 1) as nat)
    }
}

/// There is a single of value `mantissa * 2^shift`.
proof fn lemma_single_exists(negative: bool, mantissa: nat, shift: nat) -> (result: u32)
    requires
        0 < mantissa < 2 * SINGLE_HIDDEN,
        1000 <= shift <= 1074,
        mantissa >= pow2((1074 - shift) as nat),
    ensures
        single_finite(result),
        (result >= SINGLE_SIGN) == negative,
        single_value(result) == (if negative {
            -((mantissa * pow2(shift)) as int)
        } else {
            (mantissa * pow2(shift)) as int
        }),
    decreases 2 * SINGLE_HIDDEN - mantissa,
{
    lemma2_to64();
    if mantissa >= SINGLE_HIDDEN {
        let unsigned: int = (shift - 924) * SINGLE_HIDDEN + (mantissa - SINGLE_HIDDEN);
        vstd::arithmetic::div_mod::lemma_fundamental_div_mod_converse(
            unsigned,
            SINGLE_HIDDEN as int,
            shift - 924,
            mantissa - SINGLE_HIDDEN,
        );
        let sign: int = if negative {
            SINGLE_SIGN as int
        } else {
            0
        };
        (sign + unsigned) as u32
    } else {
        if 1074 - shift > 23 {
            lemma_pow2_strictly_increases(23, (1074 - shift) as nat);
        }
        lemma_pow2_unfold((1074 - shift + 1) as nat);
        lemma_pow2_unfold(shift);
        assert((mantissa * 2) * pow2((shift - 1) as nat) == mantissa * (2 * pow2(
            (shift - 1) as nat,
        ))) by (nonlinear_arith);
        lemma_single_exists(negative, mantissa * 2, (shift - 1) as nat)
    }
}

/// Every integer of a magnitude below `WHOLE_LIMIT` has a number that is it.
pub proof fn lemma_whole_real(number: int)
    requires
        -WHOLE_LIMIT < number < WHOLE_LIMIT,
    ensures
        is_whole_real(number, whole_real(number)),
{
    lemma_small_integers_are_singles(number);
    if number == 0 {
        assert(0 * pow2(1074) == 0);
        assert(0 * pow2(925) == 0);
        assert(is_whole_real(0, Real { double: 0, single: 0 }));
    } else {
        lemma2_to64();
        let magnitude: nat = if number < 0 {
            (-number) as nat
        } else {
            number as nat
        };
        let double = lemma_double_exists(number < 0, magnitude, 1074);
        let single = lemma_single_exists(number < 0, magnitude, 1074);
        assert((-magnitude) * pow2(1074) == -(magnitude * pow2(1074))) by (nonlinear_arith);
        assert(is_whole_real(number, Real { double, single }));
    }
}

/// The whole value of a number that is an integer is that integer.
pub proof fn lemma_whole_value(found: Real, number: int)
    requires
        -SMALL_LIMIT < number < SMALL_LIMIT,
        found.equals_integer(number),
    ensures
        found.whole_value() == Some(number),
{
    assert(found.integer_within(-SMALL_LIMIT + 1, SMALL_LIMIT - 1));
    lemma_whole_is_injective(number, found.whole_value()->0);
}

/// Two to the power of 53.
pub const SMALL_LIMIT: i64 = 0x20_0000_0000_0000;

/// The integer parts of two numbers are in the order of the numbers.
pub proof fn lemma_saturated_is_ordered(left: Real, right: Real, min: int, max: int)
    requires
        double_at_most(left.double, right.double),
        min <= max,
    ensures
        left.saturated(min, max) <= right.saturated(min, max),
        min <= left.saturated(min, max),
        right.saturated(min, max) <= max,
{
    let unit = pow2(1074) as int;
    lemma_pow2_pos(1074);
    let a = left.value();
    let b = right.value();
    if a >= 0 {
        vstd::arithmetic::div_mod::lemma_div_is_ordered(a, b, unit);
    } else if b < 0 {
        vstd::arithmetic::div_mod::lemma_div_is_ordered(-b, -a, unit);
    } else {
        vstd::arithmetic::div_mod::lemma_div_pos_is_pos(-a, unit);
        vstd::arithmetic::div_mod::lemma_div_pos_is_pos(b, unit);
    }
}

/// Whole numbers are in the order of their integers.
pub proof fn lemma_whole_is_ordered(left: Real, lower: int, right: Real, upper: int)
    requires
        left.equals_integer(lower),
        right.equals_integer(upper),
        lower <= upper,
    ensures
        double_at_most(left.double, right.double),
{
    lemma_pow2_pos(1074);
    let unit = pow2(1074) as int;
    assert(lower * unit <= upper * unit) by (nonlinear_arith)
        requires
            lower <= upper,
            unit > 0,
    ;
}

/// The integer part of a whole number is its integer.
pub proof fn lemma_whole_is_saturated(found: Real, number: int, min: int, max: int)
    requires
        found.equals_integer(number),
        min <= number <= max,
    ensures
        found.saturated(min, max) == number,
{
    lemma_pow2_pos(1074);
    let unit = pow2(1074) as int;
    if number < 0 {
        assert(number * unit < 0) by (nonlinear_arith)
            requires
                number < 0,
                unit > 0,
        ;
        assert(-(number * unit) == unit * (-number)) by (nonlinear_arith);
        vstd::arithmetic::div_mod::lemma_div_multiples_vanish(-number, unit);
    } else {
        assert(number * unit >= 0) by (nonlinear_arith)
            requires
                number >= 0,
                unit > 0,
        ;
        assert(number * unit == unit * number) by (nonlinear_arith);
        vstd::arithmetic::div_mod::lemma_div_multiples_vanish(number, unit);
    }
}

pub proof fn lemma_whole_is_injective(left: int, right: int)
    ensures
        whole(left) == whole(right) <==> left == right,
{
    lemma_pow2_pos(1074);
    let unit = pow2(1074) as int;
    if left != right {
        assert(left * unit != right * unit) by (nonlinear_arith)
            requires
                left != right,
                unit > 0,
        ;
    }
}

proof fn lemma_no_multiple_between(magnitude: int, unit: int)
    requires
        0 < magnitude < unit,
    ensures
        forall|number: int|
            number * unit != magnitude && #[trigger] (number * unit) != -magnitude,
{
    assert forall|number: int|
        number * unit != magnitude && #[trigger] (number * unit) != -magnitude by {
        if number > 0 {
            assert(number * unit >= unit) by (nonlinear_arith)
                requires
                    number > 0,
                    unit > 0,
            ;
        } else if number < 0 {
            assert(number * unit <= -unit) by (nonlinear_arith)
                requires
                    number < 0,
                    unit > 0,
            ;
        } else {
            assert(number * unit == 0);
        }
    }
}

proof fn lemma_not_divisible(mantissa: int, step: int, power: int, number: int)
    requires
        step > 0,
        power > 0,
        mantissa % step != 0,
    ensures
        number * (step * power) != mantissa * power,
{
    if number * (step * power) == mantissa * power {
        assert((number * step) * power == mantissa * power) by {
            assert((number * step) * power == number * (step * power)) by (nonlinear_arith);
        }
        assert(number * step == mantissa) by (nonlinear_arith)
            requires
                (number * step) * power == mantissa * power,
                power > 0,
        ;
        vstd::arithmetic::div_mod::lemma_mod_multiples_basic(number, step);
    }
}

fn power_of_two(exponent: u64) -> (result: u64)
    requires
        exponent < 64,
    ensures
        result == pow2(exponent as nat),
{
    let mut result: u64 = 1;
    let mut index: u64 = 0;
    proof {
        lemma2_to64();
    }
    while index < exponent
        invariant
            index <= exponent < 64,
            result == pow2(index as nat),
        decreases exponent - index,
    {
        proof {
            lemma_pow2_unfold((index + 1) as nat);
            if index + 1 < 63 {
                lemma_pow2_strictly_increases((index + 1) as nat, 63);
            }
            lemma2_to64_rest();
        }
        result = result * 2;
        index += 1;
    }
    result
}

/// A number with its renderings: the shortest one, the one rounded to an
/// integer and the one with three decimals.
#[derive(Debug, Clone)]
pub struct Sample {
    pub value: Real,
    pub plain: String,
    pub rounded: String,
    pub fixed: String,
}

#[verifier::ext_equal]
pub struct SampleView {
    pub value: Real,
    pub plain: Seq<char>,
    pub rounded: Seq<char>,
    pub fixed: Seq<char>,
}

impl View for Sample {
    type V = SampleView;

    open spec fn view(&self) -> SampleView {
        SampleView {
            value: self.value,
            plain: self.plain@,
            rounded: self.rounded@,
            fixed: self.fixed@,
        }
    }
}

impl Sample {
    pub fn copy(&self) -> (result: Sample)
        ensures
            result@ == self@,
    {
        Sample {
            value: self.value,
            plain: self.plain.clone(),
            rounded: self.rounded.clone(),
            fixed: self.fixed.clone(),
        }
    }

    /// The sample of an integer.
    pub fn from_integer(number: i32) -> (result: Sample)
        ensures
            result.value.equals_integer(number as int),
            -0x100_0000 < number < 0x100_0000 ==> single_value(result.value.single) == whole(
                number as int,
            ),
            result.plain@ == signed_decimal(number as int),
            result.rounded@ == signed_decimal(number as int),
            result.fixed@ == signed_decimal(number as int) + ".000"@,
            result@ == whole_sample(number as int),
            is_whole_real(number as int, result.value),
    {
        let plain = cat_signed(String::new(), number as i64);
        assert(plain@ =~= signed_decimal(number as int));
        let rounded = plain.clone();
        let fixed = cat(plain.clone(), ".000");
        Sample { value: Real::from_integer(number), plain, rounded, fixed }
    }
}

/// The sample of an integer.
pub open spec fn whole_sample(number: int) -> SampleView {
    SampleView {
        value: whole_real(number),
        plain: signed_decimal(number),
        rounded: signed_decimal(number),
        fixed: signed_decimal(number) + ".000"@,
    }
}

/// The number of a state: one or zero.
pub open spec fn state_real(on: bool) -> Real {
    if on {
        Real { double: 0x3FF0_0000_0000_0000, single: 0x3F80_0000 }
    } else {
        Real { double: 0, single: 0 }
    }
}

/// The sample of a state.
pub open spec fn state_sample(on: bool) -> SampleView {
    let digit = if on {
        "1"@
    } else {
        "0"@
    };
    SampleView {
        value: state_real(on),
        plain: digit,
        rounded: digit,
        fixed: digit + ".000"@,
    }
}

/// The number of a state is one where it is on, and zero where it is off.
pub proof fn law_state_is_zero_or_one(on: bool)
    ensures
        state_real(on).equals_integer(
            if on {
                1
            } else {
                0
            },
        ),
{
    if on {
        let bits = 0x3FF0_0000_0000_0000u64;
        lemma2_to64();
        lemma2_to64_rest();
        lemma_pow2_adds(52, 1022);
        assert(bits as nat / (DOUBLE_HIDDEN as nat) == 1023);
        assert(bits as nat % (DOUBLE_HIDDEN as nat) == 0);
    } else {
        assert(0 * pow2(1074) == 0);
    }
}

impl Sample {
    pub fn of_state(on: bool) -> (result: Sample)
        ensures
            result@ == state_sample(on),
    {
        if on {
            Sample {
                value: Real { double: 0x3FF0_0000_0000_0000, single: 0x3F80_0000 },
                plain: "1".to_owned(),
                rounded: "1".to_owned(),
                fixed: cat("1".to_owned(), ".000"),
            }
        } else {
            Sample {
                value: Real { double: 0, single: 0 },
                plain: "0".to_owned(),
                rounded: "0".to_owned(),
                fixed: cat("0".to_owned(), ".000"),
            }
        }
    }
}

// ---------------------------------------------------------------------------
// Laws of numbers.
/// The integer part is the integer next to the number on the side of zero.
pub proof fn law_integer_parts_lie_toward_zero(found: Real)
    ensures
        found.value() >= 0 ==> whole(found.truncated()) <= found.value() < whole(
            found.truncated() + 1,
        ),
        found.value() < 0 ==> whole(found.truncated() - 1) < found.value() <= whole(
            found.truncated(),
        ),
{
    lemma_pow2_pos(1074);
    let unit = pow2(1074) as int;
    let value = found.value();
    let magnitude = if value < 0 {
        -value
    } else {
        value
    };
    vstd::arithmetic::div_mod::lemma_fundamental_div_mod(magnitude, unit);
    let quotient = magnitude / unit;
    let rest = magnitude % unit;
    assert(unit * quotient == quotient * unit) by (nonlinear_arith);
    assert((quotient + 1) * unit == quotient * unit + unit) by (nonlinear_arith);
    assert((-quotient) * unit == -(quotient * unit)) by (nonlinear_arith);
    assert((-quotient - 1) * unit == -(quotient * unit) - unit) by (nonlinear_arith);
}

/// A number is kept in a range of integers: its integer part where that lies in
/// the range, else the end that it lies beyond; what is no number is zero.
pub proof fn law_numbers_are_kept_in_range(found: Real, min: int, max: int)
    requires
        min <= 0 <= max,
    ensures
        min <= found.saturated(min, max) <= max,
        double_nan(found.double) ==> found.saturated(min, max) == 0,
        !double_nan(found.double) && found.truncated() < min ==> found.saturated(min, max) == min,
        !double_nan(found.double) && found.truncated() > max ==> found.saturated(min, max) == max,
        !double_nan(found.double) && min <= found.truncated() <= max ==> found.saturated(min, max)
            == found.truncated(),
{
}

/// A number lies in the range from itself to itself, and in no range that ends
/// before it or begins behind it. What is no number lies in none.
pub proof fn law_ranges_hold_what_lies_between(found: Real, low: Real, high: Real)
    ensures
        found.finite() ==> found.within(found, found),
        found.finite() && low.finite() && high.finite() ==> (found.within(low, high) <==> (
        low.value() <= found.value() && found.value() <= high.value())),
        double_nan(found.double) || double_nan(low.double) || double_nan(high.double)
            ==> !found.within(low, high),
        found.finite() && low.finite() ==> (found.same(low) <==> found.value() == low.value()),
{
}

/// The sign and the fields of a number are those of the IEEE formats: eleven
/// bits of exponent and 52 of fraction for a double, eight and 23 for a single.
pub proof fn law_bits_stand_for_numbers(bits: u64)
    ensures
        bits < 0x8000_0000_0000_0000 ==> double_value(bits) >= 0,
        bits >= 0x8000_0000_0000_0000 ==> double_value(bits) == -double_value(
            (bits - 0x8000_0000_0000_0000) as u64,
        ),
        bits < 0x10_0000_0000_0000 ==> double_value(bits) == bits,
        double_finite(bits) <==> bits as nat % 0x8000_0000_0000_0000 < 0x7FF0_0000_0000_0000,
        double_nan(bits) <==> bits as nat % 0x8000_0000_0000_0000 > 0x7FF0_0000_0000_0000,
{
}

} // verus!
