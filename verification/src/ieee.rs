//! Bit-level reading of IEEE 754 binary32 and binary64 numbers.
//!
//! The library never holds a floating-point value. A number of either width
//! travels as its bit pattern, and the few operations that the value bridge
//! needs (is it finite, widen a single to a double, turn an unsigned integer
//! into the nearest double) are carried out on the bits and proved against
//! the value that the bits denote.

use vstd::arithmetic::power2::{
    lemma2_to64, lemma2_to64_rest, lemma_pow2_adds, lemma_pow2_pos, lemma_pow2_strictly_increases, pow2,
};
use vstd::prelude::*;

verus! {

/// Sign bit of a single.
pub const SINGLE_SIGN: u32 = 0x8000_0000;

/// Weight of the hidden bit of a single: 2^23.
pub const SINGLE_HIDDEN: u32 = 0x0080_0000;

/// Magnitude bits of the single infinity; every larger magnitude is a NaN.
pub const SINGLE_INFINITY: u32 = 0x7f80_0000;

/// Sign bit of a double.
pub const DOUBLE_SIGN: u64 = 0x8000_0000_0000_0000;

/// Weight of the hidden bit of a double: 2^52.
pub const DOUBLE_HIDDEN: u64 = 0x0010_0000_0000_0000;

/// Magnitude bits of the double infinity; every larger magnitude is a NaN.
pub const DOUBLE_INFINITY: u64 = 0x7ff0_0000_0000_0000;

/// A double fraction has 29 more bits than a single fraction: 2^29.
pub const FRACTION_GAP: u64 = 0x2000_0000;

/// The sign bit is set.
pub open spec fn single_negative(bits: u32) -> bool {
    bits >= SINGLE_SIGN
}

/// The bits without the sign bit.
pub open spec fn single_magnitude(bits: u32) -> int {
    if bits >= SINGLE_SIGN {
        bits - SINGLE_SIGN
    } else {
        bits as int
    }
}

/// The biased exponent field, from 0 to 255.
pub open spec fn single_exponent(bits: u32) -> int {
    single_magnitude(bits) / (SINGLE_HIDDEN as int)
}

/// The fraction field, below 2^23.
pub open spec fn single_fraction(bits: u32) -> int {
    single_magnitude(bits) % (SINGLE_HIDDEN as int)
}

/// Zero, subnormal or normal: neither an infinity nor a NaN.
pub open spec fn single_is_finite(bits: u32) -> bool {
    single_magnitude(bits) < SINGLE_INFINITY
}

/// The absolute value of a finite single, counted in units of 2^-149.
pub open spec fn single_units(bits: u32) -> nat {
    let e = single_exponent(bits);
    let f = single_fraction(bits);
    if e == 0 {
        f as nat
    } else {
        ((SINGLE_HIDDEN + f) * pow2((e - 1) as nat)) as nat
    }
}

/// The sign bit is set.
pub open spec fn double_negative(bits: u64) -> bool {
    bits >= DOUBLE_SIGN
}

/// The bits without the sign bit.
pub open spec fn double_magnitude(bits: u64) -> int {
    if bits >= DOUBLE_SIGN {
        bits - DOUBLE_SIGN
    } else {
        bits as int
    }
}

/// The biased exponent field, from 0 to 2047.
pub open spec fn double_exponent(bits: u64) -> int {
    double_magnitude(bits) / (DOUBLE_HIDDEN as int)
}

/// The fraction field, below 2^52.
pub open spec fn double_fraction(bits: u64) -> int {
    double_magnitude(bits) % (DOUBLE_HIDDEN as int)
}

/// Zero, subnormal or normal: neither an infinity nor a NaN.
pub open spec fn double_is_finite(bits: u64) -> bool {
    double_magnitude(bits) < DOUBLE_INFINITY
}

/// The absolute value of a finite double, counted in units of 2^-1074.
pub open spec fn double_units(bits: u64) -> nat {
    let e = double_exponent(bits);
    let f = double_fraction(bits);
    if e == 0 {
        f as nat
    } else {
        ((DOUBLE_HIDDEN + f) * pow2((e - 1) as nat)) as nat
    }
}

/// A significand doubled until its leading bit stands at 2^23, with the
/// exponent lowered once for each doubling.
pub open spec fn normalized(significand: nat, exponent: int) -> (nat, int)
    decreases 2 * SINGLE_HIDDEN - significand,
{
    if significand == 0 || significand >= SINGLE_HIDDEN {
        (significand, exponent)
    } else {
        normalized(2 * significand, exponent - 1)
    }
}

/// The double that has the same value as a finite single.
pub open spec fn widen_single(bits: u32) -> u64 {
    let sign: int = if single_negative(bits) {
        DOUBLE_SIGN as int
    } else {
        0
    };
    let e = single_exponent(bits);
    let f = single_fraction(bits);
    if e == 0 {
        if f == 0 {
            sign as u64
        } else {
            let (m, x) = normalized(f as nat, 897);
            (sign + x * DOUBLE_HIDDEN + (m - SINGLE_HIDDEN) * FRACTION_GAP) as u64
        }
    } else {
        (sign + (e + 896) * DOUBLE_HIDDEN + f * FRACTION_GAP) as u64
    }
}

/// `n` divided by `unit` and rounded to the nearest integer, a tie going to
/// the even one.
pub open spec fn round_half_even(n: nat, unit: nat) -> nat {
    let q = n / unit;
    let r = n % unit;
    if 2 * r > unit || (2 * r == unit && q % 2 == 1) {
        q + 1
    } else {
        q
    }
}

/// The number of bits that an integer takes: none for 0, and else one more
/// than the place of its leading bit.
pub open spec fn bit_length(n: nat) -> nat
    decreases n,
{
    if n == 0 {
        0
    } else {
        1 + bit_length(n / 2)
    }
}

/// The double nearest to an unsigned integer, a tie going to the double with
/// the even significand. An integer of at most 53 bits is a double as it is;
/// a longer one is rounded to 53 bits.
pub open spec fn double_from_unsigned(n: u64) -> u64 {
    let length = bit_length(n as nat);
    if n == 0 {
        0
    } else if length <= 53 {
        ((1022 + length) * DOUBLE_HIDDEN + (n * pow2((53 - length) as nat) - DOUBLE_HIDDEN)) as u64
    } else {
        ((1022 + length) * DOUBLE_HIDDEN + (round_half_even(n as nat, pow2((length - 53) as nat))
            - DOUBLE_HIDDEN)) as u64
    }
}

/// Says whether the bits of a single denote a finite number.
pub fn single_finite(bits: u32) -> (finite: bool)
    ensures
        finite == single_is_finite(bits),
{
    let magnitude: u32 = if bits >= SINGLE_SIGN {
        bits - SINGLE_SIGN
    } else {
        bits
    };
    magnitude < SINGLE_INFINITY
}

/// Says whether the bits of a double denote a finite number.
pub fn double_finite(bits: u64) -> (finite: bool)
    ensures
        finite == double_is_finite(bits),
{
    let magnitude: u64 = if bits >= DOUBLE_SIGN {
        bits - DOUBLE_SIGN
    } else {
        bits
    };
    magnitude < DOUBLE_INFINITY
}

/// Doubling a significand and lowering its exponent by one keeps
/// `significand * 2^(exponent - floor)`, and the exponent stays at or above a
/// floor that lies 23 below the exponent of the significand 1.
proof fn lemma_normalized(significand: nat, exponent: int, floor: int)
    requires
        0 < significand < 2 * SINGLE_HIDDEN,
        floor <= exponent <= floor + 23,
        pow2((floor + 23 - exponent) as nat) <= significand,
    ensures
        SINGLE_HIDDEN <= normalized(significand, exponent).0 < 2 * SINGLE_HIDDEN,
        floor <= normalized(significand, exponent).1 <= exponent,
        normalized(significand, exponent).0 * pow2((normalized(significand, exponent).1 - floor) as nat)
            == significand * pow2((exponent - floor) as nat),
    decreases 2 * SINGLE_HIDDEN - significand,
{
    lemma2_to64();
    if significand >= SINGLE_HIDDEN {
    } else {
        let used = (floor + 23 - exponent) as nat;
        // the significand is below 2^23 and at least 2^used, so used < 23
        assert(used < 23) by {
            if used >= 23 {
                if used > 23 {
                    lemma_pow2_strictly_increases(23, used);
                }
                assert(pow2(used) >= pow2(23));
            }
        }
        assert(pow2(used + 1) == 2 * pow2(used)) by {
            lemma_pow2_adds(1, used);
        }
        // one doubling uses up one unit of the exponent
        assert(pow2((exponent - floor) as nat) == 2 * pow2((exponent - 1 - floor) as nat)) by {
            lemma_pow2_adds(1, (exponent - 1 - floor) as nat);
        }
        lemma_normalized(2 * significand, exponent - 1, floor);
        assert((2 * significand) * pow2((exponent - 1 - floor) as nat) == significand * pow2(
            (exponent - floor) as nat,
        )) by (nonlinear_arith)
            requires
                pow2((exponent - floor) as nat) == 2 * pow2((exponent - 1 - floor) as nat),
        ;
    }
}

/// Widens a single to the double of the same value. A single that is no
/// finite number has none.
pub fn single_to_double(bits: u32) -> (wide: Option<u64>)
    ensures
        wide == (if single_is_finite(bits) {
            Some(widen_single(bits))
        } else {
            None
        }),
{
    let negative = bits >= SINGLE_SIGN;
    let magnitude: u32 = if negative {
        bits - SINGLE_SIGN
    } else {
        bits
    };
    if magnitude >= SINGLE_INFINITY {
        return None;
    }
    let exponent: u64 = (magnitude / SINGLE_HIDDEN) as u64;
    let fraction: u64 = (magnitude % SINGLE_HIDDEN) as u64;
    let sign: u64 = if negative {
        DOUBLE_SIGN
    } else {
        0
    };
    if exponent == 0 {
        if fraction == 0 {
            Some(sign)
        } else {
            let mut m: u64 = fraction;
            let mut x: u64 = 897;
            let ghost mut doublings: nat = 0;
            proof {
                lemma2_to64();
            }
            while m < 0x0080_0000
                invariant
                    0 < m < 0x0100_0000,
                    x + doublings == 897,
                    doublings <= 23,
                    pow2(doublings) <= m,
                    normalized(m as nat, x as int) == normalized(fraction as nat, 897),
                decreases 0x0100_0000 - m,
            {
                proof {
                    lemma2_to64();
                    if doublings >= 23 {
                        assert(pow2(23) <= m);
                    }
                    lemma_pow2_adds(1, doublings);
                }
                m = m * 2;
                x = x - 1;
                proof {
                    doublings = doublings + 1;
                }
            }
            Some(sign + x * DOUBLE_HIDDEN + (m - 0x0080_0000) * FRACTION_GAP)
        }
    } else {
        Some(sign + (exponent + 896) * DOUBLE_HIDDEN + fraction * FRACTION_GAP)
    }
}

/// An integer above 0 lies between the two powers of two that its length
/// names.
pub proof fn lemma_bit_length(n: nat)
    requires
        n > 0,
    ensures
        bit_length(n) >= 1,
        pow2((bit_length(n) - 1) as nat) <= n < pow2(bit_length(n)),
    decreases n,
{
    lemma2_to64();
    if n == 1 {
        assert(bit_length(0) == 0);
        assert(bit_length(1) == 1 + bit_length(0));
    } else {
        lemma_bit_length(n / 2);
        let k = bit_length(n / 2);
        lemma_pow2_adds(1, (k - 1) as nat);
        lemma_pow2_adds(1, k);
    }
}

/// An integer of 64 bits has a length of at most 64.
pub proof fn lemma_bit_length_u64(n: u64)
    ensures
        bit_length(n as nat) <= 64,
{
    if n > 0 {
        lemma_bit_length(n as nat);
        lemma2_to64();
        let length = bit_length(n as nat);
        if length > 64 {
            if length > 65 {
                lemma_pow2_strictly_increases(64, (length - 1) as nat);
            }
            assert(pow2((length - 1) as nat) >= pow2(64));
        }
    }
}

/// Two to the power of `exponent`.
fn power_of_two(exponent: u64) -> (power: u64)
    requires
        exponent <= 63,
    ensures
        power == pow2(exponent as nat),
{
    let mut power: u64 = 1;
    let mut done: u64 = 0;
    proof {
        lemma2_to64();
    }
    while done < exponent
        invariant
            done <= exponent <= 63,
            power == pow2(done as nat),
        decreases exponent - done,
    {
        proof {
            lemma_pow2_adds(1, done as nat);
            lemma2_to64();
            if done + 1 < 63 {
                lemma_pow2_strictly_increases((done + 1) as nat, 63);
            }
            lemma2_to64_rest();
        }
        power = power * 2;
        done = done + 1;
    }
    power
}

/// The number of bits that an integer takes.
fn length_of(n: u64) -> (length: u64)
    ensures
        length == bit_length(n as nat),
        length <= 64,
{
    let mut length: u64 = 0;
    let mut rest: u64 = n;
    proof {
        lemma_bit_length_u64(n);
    }
    while rest > 0
        invariant
            bit_length(n as nat) == length + bit_length(rest as nat),
            bit_length(n as nat) <= 64,
        decreases rest,
    {
        rest = rest / 2;
        length = length + 1;
    }
    length
}

/// Turns an unsigned integer into the nearest double.
pub fn unsigned_to_double(n: u64) -> (bits: u64)
    ensures
        bits == double_from_unsigned(n),
{
    if n == 0 {
        return 0;
    }
    let length: u64 = length_of(n);
    proof {
        lemma_bit_length(n as nat);
        lemma2_to64();
        lemma2_to64_rest();
    }
    if length <= 53 {
        let scale: u64 = power_of_two(53 - length);
        proof {
            lemma_scaled_bounds(n as nat, length as nat);
        }
        let significand: u64 = n * scale;
        (1022 + length) * DOUBLE_HIDDEN + (significand - DOUBLE_HIDDEN)
    } else {
        let unit: u64 = power_of_two(length - 53);
        proof {
            lemma_rounded_bounds(n as nat, length as nat);
        }
        let q: u64 = n / unit;
        let r: u64 = n % unit;
        let up: bool = r > unit - r || (r == unit - r && q % 2 == 1);
        let significand: u64 = if up {
            q + 1
        } else {
            q
        };
        (1022 + length) * DOUBLE_HIDDEN + (significand - DOUBLE_HIDDEN)
    }
}

/// An integer of at most 53 bits, scaled to 53 bits, lies from 2^52 up to
/// but not at 2^53.
proof fn lemma_scaled_bounds(n: nat, length: nat)
    requires
        n > 0,
        length == bit_length(n),
        length <= 53,
    ensures
        DOUBLE_HIDDEN <= n * pow2((53 - length) as nat) < 2 * DOUBLE_HIDDEN,
{
    lemma_bit_length(n);
    lemma2_to64_rest();
    let scale = pow2((53 - length) as nat);
    lemma_pow2_pos((53 - length) as nat);
    assert(pow2(52) == pow2((length - 1) as nat) * scale) by {
        lemma_pow2_adds((length - 1) as nat, (53 - length) as nat);
        assert((length - 1) as nat + (53 - length) as nat == 52);
    }
    assert(pow2(53) == pow2(length) * scale) by {
        lemma_pow2_adds(length, (53 - length) as nat);
        assert(length + (53 - length) as nat == 53);
    }
    assert(pow2((length - 1) as nat) * scale <= n * scale) by (nonlinear_arith)
        requires
            pow2((length - 1) as nat) <= n,
            scale > 0,
    ;
    assert(n * scale < pow2(length) * scale) by (nonlinear_arith)
        requires
            n < pow2(length),
            scale > 0,
    ;
}

/// An integer of more than 53 bits, divided by the unit that leaves 53 bits,
/// lies from 2^52 up to but not at 2^53; rounded, it may reach 2^53.
proof fn lemma_rounded_bounds(n: nat, length: nat)
    requires
        n > 0,
        length == bit_length(n),
        53 < length <= 64,
    ensures
        pow2((length - 53) as nat) > 0,
        DOUBLE_HIDDEN <= n / pow2((length - 53) as nat) < 2 * DOUBLE_HIDDEN,
        DOUBLE_HIDDEN <= round_half_even(n, pow2((length - 53) as nat)) <= 2 * DOUBLE_HIDDEN,
{
    lemma_bit_length(n);
    lemma2_to64_rest();
    let unit = pow2((length - 53) as nat);
    lemma_pow2_pos((length - 53) as nat);
    assert(pow2((length - 1) as nat) == DOUBLE_HIDDEN * unit) by {
        lemma_pow2_adds(52, (length - 53) as nat);
        assert(52 + (length - 53) as nat == (length - 1) as nat);
    }
    assert(pow2(length) == 2 * DOUBLE_HIDDEN * unit) by {
        lemma_pow2_adds(53, (length - 53) as nat);
        assert(53 + (length - 53) as nat == length);
    }
    let q = n / unit;
    assert(DOUBLE_HIDDEN <= q < 2 * DOUBLE_HIDDEN) by (nonlinear_arith)
        requires
            unit > 0,
            q == n / unit,
            DOUBLE_HIDDEN * unit <= n,
            n < 2 * DOUBLE_HIDDEN * unit,
    ;
}

/// Widening is exact: the result is a finite double of the same sign that
/// denotes the same number. A single counts its value in units of 2^-149, a
/// double in units of 2^-1074, which are 2^925 times smaller.
pub proof fn lemma_widen_single_exact(bits: u32)
    requires
        single_is_finite(bits),
    ensures
        double_is_finite(widen_single(bits)),
        double_negative(widen_single(bits)) == single_negative(bits),
        double_units(widen_single(bits)) == single_units(bits) * pow2(925),
{
    lemma2_to64();
    lemma2_to64_rest();
    let e = single_exponent(bits);
    let f = single_fraction(bits);
    let wide = widen_single(bits);
    let sign: int = if single_negative(bits) {
        DOUBLE_SIGN as int
    } else {
        0
    };
    if e == 0 && f == 0 {
        assert(double_units(wide) == 0);
        assert(single_units(bits) * pow2(925) == 0) by (nonlinear_arith)
            requires
                single_units(bits) == 0,
        ;
    } else {
        // significand with its leading bit at 2^23, and the double's exponent field
        let (m, x): (nat, int) = if e == 0 {
            normalized(f as nat, 897)
        } else {
            ((SINGLE_HIDDEN + f) as nat, e + 896)
        };
        if e == 0 {
            assert(pow2(0) == 1);
            lemma_normalized(f as nat, 897, 874);
            assert(m * pow2((x - 874) as nat) == f * pow2(23));
        }
        assert(SINGLE_HIDDEN <= m < 2 * SINGLE_HIDDEN);
        assert(874 <= x <= 1150);
        let fraction = (m - SINGLE_HIDDEN) * FRACTION_GAP;
        assert(0 <= fraction < DOUBLE_HIDDEN);
        assert(wide == sign + x * DOUBLE_HIDDEN + fraction);
        assert(double_magnitude(wide) == x * DOUBLE_HIDDEN + fraction);
        assert(double_exponent(wide) == x);
        assert(double_fraction(wide) == fraction);
        assert(DOUBLE_HIDDEN + fraction == m * FRACTION_GAP);
        assert(x >= 1);
        // 2^29 * 2^(x - 1) = 2^(x + 28)
        lemma_pow2_adds(29, (x - 1) as nat);
        assert(double_units(wide) == m * pow2((x + 28) as nat)) by (nonlinear_arith)
            requires
                double_units(wide) == (m * FRACTION_GAP) * pow2((x - 1) as nat),
                pow2(29) == FRACTION_GAP,
                pow2((x + 28) as nat) == pow2(29) * pow2((x - 1) as nat),
        ;
        if e == 0 {
            // m * 2^(x - 874) = f * 2^23, and 902 more doublings on both sides
            lemma_pow2_adds((x - 874) as nat, 902);
            lemma_pow2_adds(23, 902);
            assert(m * pow2((x + 28) as nat) == f * pow2(925)) by (nonlinear_arith)
                requires
                    m * pow2((x - 874) as nat) == f * pow2(23),
                    pow2((x + 28) as nat) == pow2((x - 874) as nat) * pow2(902),
                    pow2(925) == pow2(23) * pow2(902),
            ;
        } else {
            lemma_pow2_adds((e - 1) as nat, 925);
            assert(m * pow2((x + 28) as nat) == (m * pow2((e - 1) as nat)) * pow2(925)) by (nonlinear_arith)
                requires
                    pow2((x + 28) as nat) == pow2((e - 1) as nat) * pow2(925),
            ;
            lemma_pow2_pos((e - 1) as nat);
            assert(single_units(bits) == m * pow2((e - 1) as nat));
        }
    }
}

/// Rounding to a multiple never moves a number by more than half the unit,
/// and lands on an even multiple when it moves it by exactly half.
pub proof fn lemma_round_half_even(n: nat, unit: nat)
    requires
        unit > 0,
    ensures
        2 * (round_half_even(n, unit) * unit - n) <= unit,
        2 * (n - round_half_even(n, unit) * unit) <= unit,
        2 * (round_half_even(n, unit) * unit - n) == unit || 2 * (n - round_half_even(n, unit) * unit)
            == unit ==> round_half_even(n, unit) % 2 == 0,
{
    let q = n / unit;
    let r = n % unit;
    assert(n == q * unit + r && 0 <= r < unit) by (nonlinear_arith)
        requires
            unit > 0,
            q == n / unit,
            r == n % unit,
    ;
    assert((q + 1) * unit == q * unit + unit) by (nonlinear_arith);
}

/// The double made from an unsigned integer is finite and not negative. It
/// denotes the integer itself where that has at most 53 bits, and else the
/// integer rounded to the multiple of the unit that leaves 53 bits.
pub proof fn lemma_double_from_unsigned(n: u64)
    ensures
        double_is_finite(double_from_unsigned(n)),
        !double_negative(double_from_unsigned(n)),
        bit_length(n as nat) <= 53 ==> double_units(double_from_unsigned(n)) == n * pow2(1074),
        bit_length(n as nat) > 53 ==> double_units(double_from_unsigned(n)) == round_half_even(
            n as nat,
            pow2((bit_length(n as nat) - 53) as nat),
        ) * pow2((bit_length(n as nat) - 53) as nat) * pow2(1074),
{
    lemma2_to64();
    lemma2_to64_rest();
    let length = bit_length(n as nat);
    let bits = double_from_unsigned(n);
    if n == 0 {
        assert(double_units(bits) == 0);
        assert(n * pow2(1074) == 0) by (nonlinear_arith)
            requires
                n == 0,
        ;
    } else {
        lemma_bit_length(n as nat);
        lemma_bit_length_u64(n);
        // the significand of 53 bits, and the unit in which it counts
        let (m, unit): (nat, nat) = if length <= 53 {
            lemma_scaled_bounds(n as nat, length);
            ((n * pow2((53 - length) as nat)) as nat, 1)
        } else {
            lemma_rounded_bounds(n as nat, length);
            (round_half_even(n as nat, pow2((length - 53) as nat)), pow2((length - 53) as nat))
        };
        assert(DOUBLE_HIDDEN <= m <= 2 * DOUBLE_HIDDEN);
        assert(bits == (1022 + length) * DOUBLE_HIDDEN + (m - DOUBLE_HIDDEN));
        assert(bits == (1021 + length) * DOUBLE_HIDDEN + m);
        let carried = m == 2 * DOUBLE_HIDDEN;
        let field = if carried {
            1023 + length
        } else {
            1022 + length
        };
        assert(double_magnitude(bits) == bits);
        assert(double_exponent(bits) == field) by {
            if carried {
                assert(bits == (1023 + length) * DOUBLE_HIDDEN);
            }
        }
        assert(double_fraction(bits) == (if carried {
            0
        } else {
            m - DOUBLE_HIDDEN
        })) by {
            if carried {
                assert(bits == (1023 + length) * DOUBLE_HIDDEN);
            }
        }
        // in both cases the value is m * 2^(length + 1021) units
        lemma_pow2_adds(1, (1021 + length) as nat);
        assert(double_units(bits) == m * pow2((1021 + length) as nat)) by {
            if carried {
                assert(double_units(bits) == DOUBLE_HIDDEN * pow2((1022 + length) as nat));
                assert(DOUBLE_HIDDEN * pow2((1022 + length) as nat) == m * pow2((1021 + length) as nat))
                    by (nonlinear_arith)
                    requires
                        m == 2 * DOUBLE_HIDDEN,
                        pow2((1022 + length) as nat) == pow2(1) * pow2((1021 + length) as nat),
                        pow2(1) == 2,
                ;
            } else {
                assert(double_units(bits) == (DOUBLE_HIDDEN + (m - DOUBLE_HIDDEN)) * pow2(
                    (1021 + length) as nat,
                ));
            }
        }
        if length <= 53 {
            lemma_pow2_adds((53 - length) as nat, (1021 + length) as nat);
            assert(m * pow2((1021 + length) as nat) == n * pow2(1074)) by (nonlinear_arith)
                requires
                    m == n * pow2((53 - length) as nat),
                    pow2(1074) == pow2((53 - length) as nat) * pow2((1021 + length) as nat),
            ;
        } else {
            lemma_pow2_adds((length - 53) as nat, 1074);
            assert(m * pow2((1021 + length) as nat) == m * unit * pow2(1074)) by (nonlinear_arith)
                requires
                    pow2((1021 + length) as nat) == unit * pow2(1074),
            ;
        }
    }
}

} // verus!
