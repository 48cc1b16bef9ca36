//! Single-precision numbers, carried as their IEEE 754 bit patterns.
//!
//! The library stores, compares and selects such numbers; it never computes with them. Comparing
//! two of them is comparing two integers, which is what this module does.

use vstd::arithmetic::power2::{lemma_pow2_pos, lemma_pow2_strictly_increases, lemma_pow2_unfold, pow2};
use vstd::prelude::*;

verus! {

/// The bits of 0.0.
pub const ZERO_BITS: u32 = 0x0000_0000;

/// The bits of 1.0.
pub const ONE_BITS: u32 = 0x3f80_0000;

/// The bits of -1.0.
pub const MINUS_ONE_BITS: u32 = 0xbf80_0000;

/// The bits of positive infinity.
pub const INFINITY_BITS: u32 = 0x7f80_0000;

/// The bits of negative infinity.
pub const NEG_INFINITY_BITS: u32 = 0xff80_0000;

/// A single-precision number, known by its bits.
#[derive(Clone, Copy, Debug, PartialEq, Eq, Structural)]
pub struct F32 {
    pub bits: u32,
}

impl F32 {
    /// The bits without the sign.
    pub open spec fn magnitude(self) -> int {
        (self.bits % 0x8000_0000) as int
    }

    /// Whether the sign bit is set.
    pub open spec fn negative(self) -> bool {
        self.bits >= 0x8000_0000
    }

    /// Whether the bits stand for no number.
    pub open spec fn nan(self) -> bool {
        self.magnitude() > 0x7f80_0000
    }

    /// Whether the bits stand for a number other than the two infinities.
    pub open spec fn finite(self) -> bool {
        self.magnitude() < 0x7f80_0000
    }

    /// The place of the number among all numbers; both zeros share one place.
    pub open spec fn rank(self) -> int {
        if self.negative() {
            -self.magnitude()
        } else {
            self.magnitude()
        }
    }

    /// The place that sorting gives to the bits: numbers by rank, what is no number after them.
    pub open spec fn sort_rank(self) -> int {
        if self.nan() {
            0x8000_0000
        } else {
            self.rank()
        }
    }

    /// The place that sorting from the highest down gives to the bits: numbers by descending rank,
    /// what is no number after them.
    pub open spec fn descending_rank(self) -> int {
        if self.nan() {
            0x8000_0000
        } else {
            -self.rank()
        }
    }

    /// The magnitude of the number in units of 2^-149, the smallest positive one. Infinity takes
    /// the next value after the largest finite number's range.
    pub open spec fn scaled_magnitude(self) -> int {
        let exponent = self.magnitude() / 0x80_0000;
        let fraction = self.magnitude() % 0x80_0000;
        if exponent == 0 {
            fraction
        } else {
            (0x80_0000 + fraction) * pow2((exponent - 1) as nat)
        }
    }

    /// The number in units of 2^-149.
    pub open spec fn scaled(self) -> int {
        if self.negative() {
            -self.scaled_magnitude()
        } else {
            self.scaled_magnitude()
        }
    }

    /// `self < other`, which no comparison with what is no number satisfies.
    pub open spec fn below(self, other: F32) -> bool {
        !self.nan() && !other.nan() && self.rank() < other.rank()
    }

    /// `self <= other`, which no comparison with what is no number satisfies.
    pub open spec fn at_most(self, other: F32) -> bool {
        !self.nan() && !other.nan() && self.rank() <= other.rank()
    }

    /// The smaller of two numbers; the other operand where one is no number.
    pub open spec fn smaller(self, other: F32) -> F32 {
        if self.nan() || other.below(self) {
            other
        } else {
            self
        }
    }

    /// The larger of two numbers; the other operand where one is no number.
    pub open spec fn larger(self, other: F32) -> F32 {
        if self.nan() || self.below(other) {
            other
        } else {
            self
        }
    }

    /// The number moved into `low..=high`; what is no number stays as it is.
    pub open spec fn within(self, low: F32, high: F32) -> F32 {
        if self.below(low) {
            low
        } else if high.below(self) {
            high
        } else {
            self
        }
    }

    /// The number without its sign.
    pub open spec fn unsigned(self) -> F32 {
        F32 { bits: (self.bits % 0x8000_0000) as u32 }
    }

    /// The number with the given bits.
    pub fn from_bits(bits: u32) -> (value: F32)
        ensures
            value.bits == bits,
    {
        F32 { bits }
    }

    /// The bits of the number.
    pub fn to_bits(self) -> (bits: u32)
        ensures
            bits == self.bits,
    {
        self.bits
    }

    /// Whether the bits stand for no number.
    pub fn is_nan(self) -> (result: bool)
        ensures
            result == self.nan(),
    {
        self.bits % 0x8000_0000 > 0x7f80_0000
    }

    /// Whether the bits stand for a number other than the two infinities.
    pub fn is_finite(self) -> (result: bool)
        ensures
            result == self.finite(),
    {
        self.bits % 0x8000_0000 < 0x7f80_0000
    }

    /// The place of the number among all numbers.
    pub fn to_rank(self) -> (rank: i64)
        ensures
            rank == self.rank(),
            -0x8000_0000 < rank < 0x8000_0000,
    {
        if self.bits >= 0x8000_0000 {
            -((self.bits - 0x8000_0000) as i64)
        } else {
            self.bits as i64
        }
    }

    /// The place that sorting gives to the bits.
    pub fn to_sort_rank(self) -> (rank: i64)
        ensures
            rank == self.sort_rank(),
            -0x8000_0000 < rank <= 0x8000_0000,
    {
        if self.is_nan() {
            0x8000_0000
        } else {
            self.to_rank()
        }
    }

    /// The place that sorting from the highest down gives to the bits.
    pub fn to_descending_rank(self) -> (rank: i64)
        ensures
            rank == self.descending_rank(),
            -0x8000_0000 < rank <= 0x8000_0000,
    {
        if self.is_nan() {
            0x8000_0000
        } else {
            -self.to_rank()
        }
    }

    /// `self < other`.
    pub fn lt(self, other: F32) -> (result: bool)
        ensures
            result == self.below(other),
    {
        !self.is_nan() && !other.is_nan() && self.to_rank() < other.to_rank()
    }

    /// `self <= other`.
    pub fn le(self, other: F32) -> (result: bool)
        ensures
            result == self.at_most(other),
    {
        !self.is_nan() && !other.is_nan() && self.to_rank() <= other.to_rank()
    }

    /// The smaller of two numbers.
    pub fn min(self, other: F32) -> (result: F32)
        ensures
            result == self.smaller(other),
    {
        if self.is_nan() || other.lt(self) {
            other
        } else {
            self
        }
    }

    /// The larger of two numbers.
    pub fn max(self, other: F32) -> (result: F32)
        ensures
            result == self.larger(other),
    {
        if self.is_nan() || self.lt(other) {
            other
        } else {
            self
        }
    }

    /// The number moved into `low..=high`.
    pub fn clamp(self, low: F32, high: F32) -> (result: F32)
        requires
            low.at_most(high),
        ensures
            result == self.within(low, high),
    {
        if self.lt(low) {
            low
        } else if high.lt(self) {
            high
        } else {
            self
        }
    }

    /// The number without its sign.
    pub fn abs(self) -> (result: F32)
        ensures
            result == self.unsigned(),
    {
        F32 { bits: self.bits % 0x8000_0000 }
    }
}

/// The magnitude in units of 2^-149 grows with the bits.
proof fn lemma_scaled_magnitude_grows(a: F32, b: F32)
    requires
        a.magnitude() < b.magnitude(),
    ensures
        0 <= a.scaled_magnitude() < b.scaled_magnitude(),
{
    let ea = a.magnitude() / 0x80_0000;
    let eb = b.magnitude() / 0x80_0000;
    let fa = a.magnitude() % 0x80_0000;
    let fb = b.magnitude() % 0x80_0000;
    assert(0 <= ea <= eb);
    if ea > 0 {
        lemma_pow2_pos((ea - 1) as nat);
        let pa = pow2((ea - 1) as nat) as int;
        assert(0 <= (0x80_0000 + fa) * pa) by (nonlinear_arith)
            requires
                fa >= 0,
                pa > 0,
        ;
        if ea == eb {
            assert((0x80_0000 + fa) * pa < (0x80_0000 + fb) * pa) by (nonlinear_arith)
                requires
                    fa < fb,
                    pa > 0,
            ;
        } else {
            let pb = pow2((eb - 1) as nat) as int;
            lemma_pow2_unfold(ea as nat);
            if eb - 1 > ea {
                lemma_pow2_strictly_increases(ea as nat, (eb - 1) as nat);
            }
            assert((0x80_0000 + fa) * pa < 0x80_0000 * (2 * pa)) by (nonlinear_arith)
                requires
                    fa < 0x80_0000,
                    pa > 0,
            ;
            assert(0x80_0000 * (2 * pa) <= (0x80_0000 + fb) * pb) by (nonlinear_arith)
                requires
                    2 * pa <= pb,
                    pa > 0,
                    fb >= 0,
            ;
        }
    } else if eb > 0 {
        let pb = pow2((eb - 1) as nat) as int;
        lemma_pow2_pos((eb - 1) as nat);
        assert(0x80_0000 <= (0x80_0000 + fb) * pb) by (nonlinear_arith)
            requires
                pb >= 1,
                fb >= 0,
        ;
    }
}

/// Comparing ranks is comparing the numbers themselves.
pub proof fn rank_orders_values(a: F32, b: F32)
    requires
        !a.nan(),
        !b.nan(),
    ensures
        a.below(b) <==> a.scaled() < b.scaled(),
        a.at_most(b) <==> a.scaled() <= b.scaled(),
{
    if a.magnitude() < b.magnitude() {
        lemma_scaled_magnitude_grows(a, b);
    } else if b.magnitude() < a.magnitude() {
        lemma_scaled_magnitude_grows(b, a);
    }
    let zero = F32 { bits: 0 };
    if a.magnitude() > 0 {
        lemma_scaled_magnitude_grows(zero, a);
    }
    if b.magnitude() > 0 {
        lemma_scaled_magnitude_grows(zero, b);
    }
}

/// The smaller of two numbers is no larger than either, and is one of them.
pub proof fn smaller_is_lower_bound(a: F32, b: F32)
    ensures
        a.smaller(b) == a || a.smaller(b) == b,
        !a.nan() ==> a.smaller(b).at_most(a),
        !b.nan() ==> a.smaller(b).at_most(b),
{
}

/// The larger of two numbers is no smaller than either, and is one of them.
pub proof fn larger_is_upper_bound(a: F32, b: F32)
    ensures
        a.larger(b) == a || a.larger(b) == b,
        !a.nan() ==> a.at_most(a.larger(b)),
        !b.nan() ==> b.at_most(a.larger(b)),
{
}

} // verus!
