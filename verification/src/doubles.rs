//! Double-precision numbers, carried as their IEEE 754 bit patterns.

use crate::floats::F32;
use vstd::arithmetic::power2::{lemma_pow2_adds, lemma_pow2_pos, lemma_pow2_strictly_increases, lemma_pow2_unfold, pow2};
use vstd::prelude::*;

verus! {

/// The exponent field.
pub open spec fn exponent_field(bits: u64) -> int {
    (bits % 0x8000_0000_0000_0000) as int / 0x10_0000_0000_0000
}

/// The digits of the number, as an integer: its magnitude is this times a power of two.
pub open spec fn significand(bits: u64) -> int {
    let fraction = (bits % 0x10_0000_0000_0000) as int;
    if exponent_field(bits) == 0 {
        fraction
    } else {
        0x10_0000_0000_0000 + fraction
    }
}

/// The power of two that the significand is multiplied by, plus 1074.
pub open spec fn shifted_exponent(bits: u64) -> int {
    if exponent_field(bits) == 0 {
        0
    } else {
        exponent_field(bits) - 1
    }
}

/// Whether the number is exactly the integer `n`.
pub open spec fn is_integer(bits: u64, n: int) -> bool {
    let magnitude = if bits >= 0x8000_0000_0000_0000 {
        -n
    } else {
        n
    };
    &&& exponent_field(bits) < 2047
    &&& if shifted_exponent(bits) >= 1074 {
        magnitude == significand(bits) * pow2((shifted_exponent(bits) - 1074) as nat)
    } else {
        magnitude * pow2((1074 - shifted_exponent(bits)) as nat) == significand(bits)
    }
}

/// The integer that the number is, if it is one that 32 bits hold.
pub open spec fn exact_int(bits: u64) -> Option<i32> {
    if exists|n: i32| #[trigger] is_integer(bits, n as int) {
        Some(choose|n: i32| #[trigger] is_integer(bits, n as int))
    } else {
        None
    }
}

/// A number is at most one integer.
pub proof fn integer_is_unique(bits: u64, a: int, b: int)
    requires
        is_integer(bits, a),
        is_integer(bits, b),
    ensures
        a == b,
{
    if shifted_exponent(bits) < 1074 {
        let power = pow2((1074 - shifted_exponent(bits)) as nat) as int;
        lemma_pow2_pos((1074 - shifted_exponent(bits)) as nat);
        assert(a == b) by (nonlinear_arith)
            requires
                a * power == b * power || (-a) * power == (-b) * power,
                power > 0,
        ;
    }
}

/// The integer that the number is, if it is one that 32 bits hold.
pub fn exact_i32(bits: u64) -> (result: Option<i32>)
    ensures
        result == exact_int(bits),
{
    let result: Option<i32> = find_i32(bits);
    proof {
        if let Some(n) = result {
            integer_is_unique(bits, n as int, exact_int(bits)->0 as int);
        }
    }
    result
}

/// The integer that the number is, if it is one that 32 bits hold.
fn find_i32(bits: u64) -> (result: Option<i32>)
    ensures
        match result {
            Some(n) => is_integer(bits, n as int),
            None => forall|n: i32| !#[trigger] is_integer(bits, n as int),
        },
{
    let negative: bool = bits >= 0x8000_0000_0000_0000;
    let field: u64 = (bits % 0x8000_0000_0000_0000) / 0x10_0000_0000_0000;
    let fraction: u64 = bits % 0x10_0000_0000_0000;
    if field >= 2047 {
        return None;
    }
    let whole: u64 = if field == 0 {
        fraction
    } else {
        0x10_0000_0000_0000 + fraction
    };
    if whole == 0 {
        assert(is_integer(bits, 0)) by {
            assert(0 * pow2((1074 - shifted_exponent(bits)) as nat) == 0) by (nonlinear_arith);
        }
        return Some(0);
    }
    let shifted: u64 = if field == 0 {
        0
    } else {
        field - 1
    };
    if shifted >= 1074 {
        proof {
            lemma_pow2_pos((shifted - 1074) as nat);
            let power = pow2((shifted - 1074) as nat) as int;
            assert(whole * power >= 0x10_0000_0000_0000) by (nonlinear_arith)
                requires
                    whole >= 0x10_0000_0000_0000,
                    power >= 1,
            ;
        }
        return None;
    }
    let mut digits: u64 = whole;
    let mut halvings: u64 = 1074 - shifted;
    let ghost total = halvings as int;
    proof {
        lemma_pow2_unfold(1);
        vstd::arithmetic::power2::lemma2_to64();
        assert(digits * pow2(0) == digits) by (nonlinear_arith)
            requires
                pow2(0) == 1,
        ;
    }
    while halvings > 0 && digits % 2 == 0
        invariant
            total == 1074 - shifted_exponent(bits) >= 1,
            whole == significand(bits) > 0,
            halvings <= total,
            digits > 0,
            digits * pow2((total - halvings) as nat) == whole,
        decreases halvings,
    {
        proof {
            let j = (total - halvings) as nat;
            lemma_pow2_unfold((j + 1) as nat);
            let power = pow2(j) as int;
            assert((digits / 2) * (2 * power) == digits * power) by (nonlinear_arith)
                requires
                    digits == 2 * (digits / 2),
            ;
        }
        digits = digits / 2;
        halvings = halvings - 1;
    }
    if halvings > 0 {
        proof {
            let j = (total - halvings) as nat;
            assert forall|n: i32| !#[trigger] is_integer(bits, n as int) by {
                if is_integer(bits, n as int) {
                    let magnitude = if negative {
                        -(n as int)
                    } else {
                        n as int
                    };
                    lemma_odd_left(magnitude, digits as int, halvings as nat, j);
                }
            }
        }
        return None;
    }
    proof {
        lemma_pow2_pos(total as nat);
        let power = pow2(total as nat) as int;
        assert forall|n: i32| #[trigger] is_integer(bits, n as int) implies digits == (if negative {
            -(n as int)
        } else {
            n as int
        }) by {
            let magnitude = if negative {
                -(n as int)
            } else {
                n as int
            };
            assert(magnitude == digits) by (nonlinear_arith)
                requires
                    magnitude * power == digits * power,
                    power > 0,
            ;
        }
    }
    if negative {
        if digits <= 0x8000_0000 {
            Some((-(digits as i64)) as i32)
        } else {
            None
        }
    } else if digits <= 0x7fff_ffff {
        Some(digits as i32)
    } else {
        None
    }
}

/// An odd number of halves is no integer: no power of two can be taken out of it.
proof fn lemma_odd_left(magnitude: int, digits: int, halvings: nat, j: nat)
    requires
        halvings > 0,
        digits % 2 == 1,
    ensures
        magnitude * pow2(halvings + j) != digits * pow2(j),
{
    lemma_pow2_adds(halvings, j);
    lemma_pow2_pos(j);
    lemma_pow2_unfold(halvings);
    let low = pow2(j) as int;
    let half = pow2((halvings - 1) as nat) as int;
    let high = pow2(halvings) as int;
    if magnitude * (high * low) == digits * low {
        assert(magnitude * high == digits) by (nonlinear_arith)
            requires
                magnitude * (high * low) == digits * low,
                low > 0,
        ;
        assert(digits == 2 * (magnitude * half)) by (nonlinear_arith)
            requires
                magnitude * high == digits,
                high == 2 * half,
        ;
    }
}

/// The magnitude of the number in units of 2^-1074, the smallest positive one.
pub open spec fn scaled_double(bits: u64) -> int {
    significand(bits) * pow2(shifted_exponent(bits) as nat)
}

/// Whether the double-precision bits stand for the same number as the single-precision ones. What
/// is no finite number keeps its fraction.
pub open spec fn is_widening(bits: u64, value: F32) -> bool {
    &&& (bits >= 0x8000_0000_0000_0000) == value.negative()
    &&& if value.finite() {
        exponent_field(bits) < 2047 && scaled_double(bits) == value.scaled_magnitude() * pow2(925)
    } else {
        bits % 0x8000_0000_0000_0000 == 0x7ff0_0000_0000_0000 + (value.magnitude() % 0x80_0000)
            * 0x2000_0000
    }
}

/// Puts together the bits of a number with the given exponent field and digits.
fn compose(negative: bool, field: u64, digits: u64) -> (bits: u64)
    requires
        1 <= field < 2047,
        0x80_0000 <= digits < 0x100_0000,
    ensures
        (bits >= 0x8000_0000_0000_0000) == negative,
        exponent_field(bits) == field,
        significand(bits) == digits * 0x2000_0000,
{
    let magnitude: u64 = field * 0x10_0000_0000_0000 + (digits - 0x80_0000) * 0x2000_0000;
    if negative {
        magnitude + 0x8000_0000_0000_0000
    } else {
        magnitude
    }
}

/// Digits and exponent, each moved against the other, give the same number.
proof fn lemma_same_number(digits: int, field: nat, m: int, k: nat, power: nat)
    requires
        field >= 1,
        digits == m * pow2(k),
        field - 1 + 29 + k == power,
    ensures
        digits * 0x2000_0000 * pow2((field - 1) as nat) == m * pow2(power),
{
    lemma_pow2_adds(k, 29);
    lemma_pow2_adds(k + 29, (field - 1) as nat);
    vstd::arithmetic::power2::lemma2_to64();
    let pk = pow2(k) as int;
    let pf = pow2((field - 1) as nat) as int;
    assert(m * pk * 0x2000_0000 * pf == m * (pk * 0x2000_0000 * pf)) by (nonlinear_arith);
}

/// A larger magnitude in bits is a larger magnitude.
proof fn lemma_scaled_double_grows(a: u64, b: u64)
    requires
        a % 0x8000_0000_0000_0000 < b % 0x8000_0000_0000_0000,
    ensures
        0 <= scaled_double(a) < scaled_double(b),
{
    let ea = exponent_field(a);
    let eb = exponent_field(b);
    let fa = (a % 0x10_0000_0000_0000) as int;
    let fb = (b % 0x10_0000_0000_0000) as int;
    assert(0 <= ea <= eb);
    let sa = shifted_exponent(a) as nat;
    let sb = shifted_exponent(b) as nat;
    lemma_pow2_pos(sa);
    lemma_pow2_pos(sb);
    let pa = pow2(sa) as int;
    let pb = pow2(sb) as int;
    assert(0 <= significand(a) * pa) by (nonlinear_arith)
        requires
            significand(a) >= 0,
            pa > 0,
    ;
    if sa == sb {
        assert(significand(a) < significand(b));
        assert(significand(a) * pa < significand(b) * pa) by (nonlinear_arith)
            requires
                significand(a) < significand(b),
                pa > 0,
        ;
    } else {
        lemma_pow2_unfold((sa + 1) as nat);
        if sb > sa + 1 {
            lemma_pow2_strictly_increases((sa + 1) as nat, sb);
        }
        assert(significand(a) * pa < 0x10_0000_0000_0000 * (2 * pa)) by (nonlinear_arith)
            requires
                significand(a) < 0x20_0000_0000_0000,
                pa > 0,
        ;
        assert(0x10_0000_0000_0000 * (2 * pa) <= significand(b) * pb) by (nonlinear_arith)
            requires
                2 * pa <= pb,
                pa > 0,
                significand(b) >= 0x10_0000_0000_0000,
        ;
    }
}

/// The bits in double precision of a number in single precision.
pub open spec fn widened(value: F32) -> u64 {
    choose|bits: u64| is_widening(bits, value)
}

/// There is only one way to widen a number.
pub proof fn widening_is_unique(a: u64, b: u64, value: F32)
    requires
        is_widening(a, value),
        is_widening(b, value),
    ensures
        a == b,
{
    if a % 0x8000_0000_0000_0000 < b % 0x8000_0000_0000_0000 {
        lemma_scaled_double_grows(a, b);
    } else if b % 0x8000_0000_0000_0000 < a % 0x8000_0000_0000_0000 {
        lemma_scaled_double_grows(b, a);
    }
}

/// The same number in double precision.
pub fn widen(value: F32) -> (bits: u64)
    ensures
        is_widening(bits, value),
        bits == widened(value),
{
    let bits: u64 = find_widening(value);
    proof {
        widening_is_unique(bits, widened(value), value);
    }
    bits
}

/// The same number in double precision.
fn find_widening(value: F32) -> (bits: u64)
    ensures
        is_widening(bits, value),
{
    let negative: bool = value.bits >= 0x8000_0000;
    let magnitude: u64 = (value.bits % 0x8000_0000) as u64;
    let field: u64 = magnitude / 0x80_0000;
    let fraction: u64 = magnitude % 0x80_0000;
    if field == 255 {
        let high: u64 = 0x7ff0_0000_0000_0000 + fraction * 0x2000_0000;
        return if negative {
            high + 0x8000_0000_0000_0000
        } else {
            high
        };
    }
    if magnitude == 0 {
        assert(0 * pow2(0) == 0 && 0 * pow2(925) == 0) by (nonlinear_arith);
        return if negative {
            0x8000_0000_0000_0000
        } else {
            0
        };
    }
    if field > 0 {
        let digits: u64 = 0x80_0000 + fraction;
        let bits: u64 = compose(negative, field + 896, digits);
        proof {
            let shift = (field - 1) as nat;
            lemma_pow2_adds(shift, 925);
            vstd::arithmetic::power2::lemma2_to64();
            lemma_same_number(digits as int, (field + 896) as nat, digits as int, 0, (
            shift + 925) as nat);
            let a = pow2(shift) as int;
            let b = pow2(925) as int;
            assert(digits * a * b == digits * (a * b)) by (nonlinear_arith);
        }
        return bits;
    }
    let mut digits: u64 = fraction;
    let mut k: u64 = 0;
    proof {
        vstd::arithmetic::power2::lemma2_to64();
    }
    assert(fraction * 1 == fraction);
    while digits < 0x80_0000
        invariant
            1 <= fraction < 0x80_0000,
            digits == fraction * pow2(k as nat),
            digits >= pow2(k as nat),
            1 <= digits < 0x100_0000,
            k <= 23,
        decreases 0x100_0000 - digits,
    {
        proof {
            vstd::arithmetic::power2::lemma2_to64();
            lemma_pow2_unfold((k + 1) as nat);
            let p = pow2(k as nat) as int;
            assert(fraction * (2 * p) == 2 * (fraction * p)) by (nonlinear_arith);
        }
        digits = digits * 2;
        k = k + 1;
    }
    let bits: u64 = compose(negative, 897 - k, digits);
    proof {
        lemma_same_number(digits as int, (897 - k) as nat, fraction as int, k as nat, 925);
    }
    bits
}

/// Widening two numbers to the same bits, they are the same.
pub proof fn widening_keeps_numbers_apart(bits: u64, a: F32, b: F32)
    requires
        is_widening(bits, a),
        is_widening(bits, b),
        a.finite() && b.finite(),
    ensures
        a.scaled() == b.scaled(),
{
    lemma_pow2_pos(925);
    let power = pow2(925) as int;
    assert(a.scaled_magnitude() == b.scaled_magnitude()) by (nonlinear_arith)
        requires
            a.scaled_magnitude() * power == b.scaled_magnitude() * power,
            power > 0,
    ;
}

} // verus!
