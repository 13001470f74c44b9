//! Doubles carried by their bit patterns.
//!
//! The library orders, bounds and truncates scores, and leaves arithmetic on
//! them to its callers. A value is held as the 64 bits of its IEEE 754 form:
//! one sign bit, eleven exponent bits, fifty-two fraction bits.

use vstd::arithmetic::power2::{lemma_pow2_strictly_increases, pow2};
use vstd::prelude::*;

verus! {

/// The bit pattern of an IEEE 754 double.
#[derive(Clone, Copy, Debug, PartialEq, Eq, Structural)]
pub struct Double {
    pub bits: u64,
}

/// The weight of the sign bit.
pub const SIGN: u64 = 0x8000_0000_0000_0000;

/// The bits of positive infinity; a larger magnitude is not a number.
pub const INFINITE: u64 = 0x7FF0_0000_0000_0000;

/// The weight of the lowest exponent bit.
pub const EXPONENT_UNIT: u64 = 0x0010_0000_0000_0000;

/// The bits of `1.0`.
pub const ONE: u64 = 0x3FF0_0000_0000_0000;

impl Double {
    /// The sign bit is set.
    pub open spec fn negative(self) -> bool {
        self.bits >= SIGN
    }

    /// The bits without the sign.
    pub open spec fn magnitude(self) -> int {
        if self.bits >= SIGN {
            self.bits - SIGN
        } else {
            self.bits as int
        }
    }

    pub open spec fn nan(self) -> bool {
        self.magnitude() > INFINITE
    }

    pub open spec fn finite(self) -> bool {
        self.magnitude() < INFINITE
    }

    /// The place of a value that is a number in the order of the doubles; both
    /// zeros have place 0.
    pub open spec fn rank(self) -> int {
        if self.negative() {
            -self.magnitude()
        } else {
            self.magnitude()
        }
    }

    /// `self < other` as doubles compare: false where either is not a number.
    pub open spec fn lt(self, other: Double) -> bool {
        !self.nan() && !other.nan() && self.rank() < other.rank()
    }

    /// `self <= other` as doubles compare.
    pub open spec fn le(self, other: Double) -> bool {
        !self.nan() && !other.nan() && self.rank() <= other.rank()
    }

    /// `self == other` as doubles compare: the zeros are equal, and nothing
    /// equals what is not a number.
    pub open spec fn same_number(self, other: Double) -> bool {
        !self.nan() && !other.nan() && self.rank() == other.rank()
    }

    /// `self` bounded below by `lo` and above by `hi`; what is not a number
    /// stays.
    pub open spec fn bounded(self, lo: Double, hi: Double) -> Double {
        if self.lt(lo) {
            lo
        } else if hi.lt(self) {
            hi
        } else {
            self
        }
    }

    /// The largest integer that is not above the size of a finite value.
    pub open spec fn whole(self) -> nat {
        let exponent = self.magnitude() / EXPONENT_UNIT as int;
        let significand = (EXPONENT_UNIT + self.magnitude() % EXPONENT_UNIT as int) as nat;
        if exponent < 1023 {
            0
        } else if exponent < 1075 {
            significand / pow2((1075 - exponent) as nat)
        } else {
            significand * pow2((exponent - 1075) as nat)
        }
    }

    /// The value cut to an integer and held within the range of `u64`; 0 for
    /// what is not a number.
    pub open spec fn as_u64(self) -> u64 {
        if self.nan() || self.negative() {
            0
        } else if !self.finite() || self.whole() > u64::MAX {
            u64::MAX
        } else {
            self.whole() as u64
        }
    }

    /// The value cut to an integer and held within the range of `i64`; 0 for
    /// what is not a number.
    pub open spec fn as_i64(self) -> i64 {
        if self.nan() {
            0
        } else if self.negative() {
            if !self.finite() || self.whole() > i64::MAX {
                i64::MIN
            } else {
                (-(self.whole() as int)) as i64
            }
        } else if !self.finite() || self.whole() > i64::MAX {
            i64::MAX
        } else {
            self.whole() as i64
        }
    }

    fn size(self) -> (r: u64)
        ensures
            r == self.magnitude(),
            r < SIGN,
    {
        if self.bits >= SIGN {
            self.bits - SIGN
        } else {
            self.bits
        }
    }

    /// Whether the value is not a number.
    pub fn is_nan(self) -> (r: bool)
        ensures
            r == self.nan(),
    {
        self.size() > INFINITE
    }

    /// Whether the value is neither infinite nor not a number.
    pub fn is_finite(self) -> (r: bool)
        ensures
            r == self.finite(),
    {
        self.size() < INFINITE
    }

    /// `self < other`.
    pub fn less(self, other: Double) -> (r: bool)
        ensures
            r == self.lt(other),
    {
        let a: u64 = self.size();
        let b: u64 = other.size();
        if a > INFINITE || b > INFINITE {
            false
        } else if self.bits >= SIGN {
            if other.bits >= SIGN {
                b < a
            } else {
                a > 0 || b > 0
            }
        } else if other.bits >= SIGN {
            false
        } else {
            a < b
        }
    }

    /// `self <= other`.
    pub fn at_most(self, other: Double) -> (r: bool)
        ensures
            r == self.le(other),
    {
        !self.is_nan() && !other.is_nan() && !other.less(self)
    }

    /// `self == other` as numbers.
    pub fn equals(self, other: Double) -> (r: bool)
        ensures
            r == self.same_number(other),
    {
        self.at_most(other) && other.at_most(self)
    }

    /// The place of the value in the order of the doubles.
    pub fn key(self) -> (r: i128)
        ensures
            r == self.rank(),
    {
        if self.bits >= SIGN {
            -(self.size() as i128)
        } else {
            self.size() as i128
        }
    }

    /// The value without its sign.
    pub fn abs(self) -> (r: Double)
        ensures
            r.bits == self.magnitude(),
    {
        Double { bits: self.size() }
    }

    /// The value held between `lo` and `hi`.
    pub fn clamp(self, lo: Double, hi: Double) -> (r: Double)
        requires
            lo.le(hi),
        ensures
            r == self.bounded(lo, hi),
            !self.nan() ==> lo.le(r) && r.le(hi),
    {
        if self.less(lo) {
            lo
        } else if hi.less(self) {
            hi
        } else {
            self
        }
    }

    /// The integer part of the size, or `None` where it is `2^64` or more.
    fn integer_part(self) -> (r: Option<u64>)
        requires
            self.finite(),
        ensures
            match r {
                Some(v) => v == self.whole(),
                None => self.whole() > u64::MAX,
            },
    {
        let m: u64 = self.size();
        let exponent: u64 = m / EXPONENT_UNIT;
        let significand: u64 = EXPONENT_UNIT + m % EXPONENT_UNIT;
        if exponent < 1023 {
            Some(0)
        } else if exponent < 1075 {
            let k: u64 = 1075 - exponent;
            proof {
                vstd::bits::lemma_u64_shr_is_div(significand, k);
            }
            Some(significand >> k)
        } else if exponent < 1087 {
            let k: u64 = exponent - 1075;
            proof {
                vstd::arithmetic::power2::lemma2_to64();
                vstd::arithmetic::power2::lemma2_to64_rest();
                if k < 11 {
                    lemma_pow2_strictly_increases(k as nat, 11);
                }
                assert(significand * pow2(k as nat) <= u64::MAX) by (nonlinear_arith)
                    requires
                        significand < 0x0020_0000_0000_0000,
                        pow2(k as nat) <= 0x800,
                ;
                vstd::bits::lemma_u64_shl_is_mul(significand, k);
            }
            Some(significand << k)
        } else {
            proof {
                vstd::arithmetic::power2::lemma2_to64();
                let k = (exponent - 1075) as nat;
                if 12 < k {
                    lemma_pow2_strictly_increases(12, k);
                }
                assert(significand * pow2(k) > u64::MAX) by (nonlinear_arith)
                    requires
                        significand >= 0x0010_0000_0000_0000,
                        pow2(k) >= 0x1000,
                ;
            }
            None
        }
    }

    /// The value cut to a `u64`.
    pub fn to_u64(self) -> (r: u64)
        ensures
            r == self.as_u64(),
    {
        if self.is_nan() || self.bits >= SIGN {
            return 0;
        }
        if !self.is_finite() {
            return u64::MAX;
        }
        match self.integer_part() {
            Some(v) => v,
            None => u64::MAX,
        }
    }

    /// The value cut to an `i64`.
    pub fn to_i64(self) -> (r: i64)
        ensures
            r == self.as_i64(),
    {
        if self.is_nan() {
            return 0;
        }
        let part: Option<u64> = if self.is_finite() {
            self.integer_part()
        } else {
            None
        };
        let size: u64 = match part {
            Some(v) => v,
            None => u64::MAX,
        };
        if self.bits >= SIGN {
            if size > i64::MAX as u64 {
                i64::MIN
            } else {
                -(size as i64)
            }
        } else if size > i64::MAX as u64 {
            i64::MAX
        } else {
            size as i64
        }
    }
}

/// Bounding a bounded value changes nothing.
pub proof fn bounding_is_idempotent(x: Double, lo: Double, hi: Double)
    requires
        lo.le(hi),
    ensures
        x.bounded(lo, hi).bounded(lo, hi) == x.bounded(lo, hi),
{
}

/// Doubles compare as numbers: among those without a sign the larger bits are the
/// larger number, among those with one the smaller, a negative number is below one
/// that is not, the zeros are equal, and what is no number compares with nothing.
pub proof fn doubles_compare_as_numbers(a: Double, b: Double)
    ensures
        a.bits <= 0x7FF0_0000_0000_0000 && b.bits <= 0x7FF0_0000_0000_0000 ==> (a.lt(b) <==> a.bits
            < b.bits),
        0x8000_0000_0000_0000 <= a.bits <= 0xFFF0_0000_0000_0000 && 0x8000_0000_0000_0000 <= b.bits
            <= 0xFFF0_0000_0000_0000 ==> (a.lt(b) <==> a.bits > b.bits),
        0x8000_0000_0000_0000 <= a.bits <= 0xFFF0_0000_0000_0000 && b.bits <= 0x7FF0_0000_0000_0000
            ==> !b.lt(a) && (a.lt(b) <==> a.bits != 0x8000_0000_0000_0000 || b.bits != 0),
        0x7FF0_0000_0000_0000 < a.bits < 0x8000_0000_0000_0000 || a.bits > 0xFFF0_0000_0000_0000
            ==> a.nan() && !a.lt(b) && !b.lt(a) && !a.le(b) && !b.le(a) && !a.same_number(b),
        a.nan() <==> 0x7FF0_0000_0000_0000 < a.bits < 0x8000_0000_0000_0000 || a.bits
            > 0xFFF0_0000_0000_0000,
        a.le(b) <==> a.lt(b) || a.same_number(b),
        !a.nan() && !b.nan() ==> a.lt(b) || b.lt(a) || a.same_number(b),
        a.same_number(b) ==> !a.lt(b) && !b.lt(a),
        a.finite() <==> a.bits < 0x7FF0_0000_0000_0000 || 0x8000_0000_0000_0000 <= a.bits
            < 0xFFF0_0000_0000_0000,
{
}

/// A bounded number lies within its bounds, and stays what it is where it already
/// does; below them it becomes the lower one, above them the upper one.
pub proof fn bounding_keeps_what_fits(x: Double, lo: Double, hi: Double)
    requires
        lo.le(hi),
    ensures
        !x.nan() ==> lo.le(x.bounded(lo, hi)) && x.bounded(lo, hi).le(hi),
        lo.le(x) && x.le(hi) ==> x.bounded(lo, hi) == x,
        x.lt(lo) ==> x.bounded(lo, hi) == lo,
        hi.lt(x) ==> x.bounded(lo, hi) == hi,
        x.nan() ==> x.bounded(lo, hi) == x,
{
}

/// Cutting a double to a whole number gives 0 below one and for what is no number,
/// nothing below zero as an unsigned number, and the same size with either sign.
pub proof fn cutting_goes_toward_zero(x: Double)
    ensures
        x.bits < 0x3FF0_0000_0000_0000 ==> x.as_u64() == 0 && x.as_i64() == 0,
        x.nan() ==> x.as_u64() == 0 && x.as_i64() == 0,
        x.bits >= 0x8000_0000_0000_0000 ==> x.as_u64() == 0,
        x.bits == 0x7FF0_0000_0000_0000 ==> x.as_u64() == u64::MAX && x.as_i64() == i64::MAX,
        x.bits == 0xFFF0_0000_0000_0000 ==> x.as_i64() == i64::MIN,
{
}

} // verus!
