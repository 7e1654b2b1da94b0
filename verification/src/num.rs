//! Numbers that arrive as `f64` (configured thresholds and durations,
//! collected metric values), held as their IEEE-754 binary64 bit pattern, the
//! value of `f64::to_bits`. The library compares and classifies them exactly
//! as `f64` does, from the bits alone.
use vstd::prelude::*;

verus! {

/// The bit pattern of an `f64`.
#[derive(Debug, Clone, Copy, PartialEq, Eq, Structural)]
pub struct Num {
    pub bits: u64,
}

/// The sign bit.
pub const SIGN_BIT: u64 = 0x8000_0000_0000_0000;

/// The bits of positive infinity: all exponent bits set, zero mantissa.
pub const INFINITY_BITS: u64 = 0x7ff0_0000_0000_0000;

impl Num {
    /// The bits without the sign bit.
    pub open spec fn magnitude(self) -> nat {
        (self.bits % SIGN_BIT) as nat
    }

    /// The sign bit is set.
    pub open spec fn sign(self) -> bool {
        self.bits >= SIGN_BIT
    }

    /// Not a number: all exponent bits set and a non-zero mantissa.
    pub open spec fn nan(self) -> bool {
        self.magnitude() > INFINITY_BITS
    }

    /// Neither infinite nor NaN: not all exponent bits set.
    pub open spec fn finite(self) -> bool {
        self.magnitude() < INFINITY_BITS
    }

    /// Positive or negative zero.
    pub open spec fn zero(self) -> bool {
        self.magnitude() == 0
    }

    /// For every non-NaN value, the order of `key` is the order of the
    /// numbers the bits stand for: within one sign the magnitude bits grow
    /// with the value, and both zeros have key 0.
    pub open spec fn key(self) -> int {
        if self.sign() {
            -(self.magnitude() as int)
        } else {
            self.magnitude() as int
        }
    }

    /// `self <= other` as `f64` compares: false when either is NaN.
    pub open spec fn spec_le(self, other: Num) -> bool {
        !self.nan() && !other.nan() && self.key() <= other.key()
    }

    /// `self >= other` as `f64` compares: false when either is NaN.
    pub open spec fn spec_ge(self, other: Num) -> bool {
        !self.nan() && !other.nan() && self.key() >= other.key()
    }

    /// `self > 0.0`.
    pub open spec fn positive(self) -> bool {
        !self.nan() && self.key() > 0
    }

    /// `self >= 0.0`.
    pub open spec fn non_negative(self) -> bool {
        !self.nan() && self.key() >= 0
    }

    pub fn from_bits(bits: u64) -> (n: Num)
        ensures
            n.bits == bits,
    {
        Num { bits }
    }

    pub fn is_nan(&self) -> (r: bool)
        ensures
            r == self.nan(),
    {
        self.bits % SIGN_BIT > INFINITY_BITS
    }

    pub fn is_finite(&self) -> (r: bool)
        ensures
            r == self.finite(),
    {
        self.bits % SIGN_BIT < INFINITY_BITS
    }

    pub fn is_zero(&self) -> (r: bool)
        ensures
            r == self.zero(),
    {
        self.bits % SIGN_BIT == 0
    }

    pub fn order_key(&self) -> (k: i64)
        ensures
            k == self.key(),
    {
        let m = (self.bits % SIGN_BIT) as i64;
        if self.bits >= SIGN_BIT {
            -m
        } else {
            m
        }
    }

    pub fn le(&self, other: &Num) -> (r: bool)
        ensures
            r == self.spec_le(*other),
    {
        !self.is_nan() && !other.is_nan() && self.order_key() <= other.order_key()
    }

    pub fn ge(&self, other: &Num) -> (r: bool)
        ensures
            r == self.spec_ge(*other),
    {
        !self.is_nan() && !other.is_nan() && self.order_key() >= other.order_key()
    }

    pub fn is_positive(&self) -> (r: bool)
        ensures
            r == self.positive(),
    {
        !self.is_nan() && self.order_key() > 0
    }

    pub fn is_non_negative(&self) -> (r: bool)
        ensures
            r == self.non_negative(),
    {
        !self.is_nan() && self.order_key() >= 0
    }
}

} // verus!
