//! Single-precision numbers carried by their bit pattern.
//!
//! Weights and fitness scores are binary32 values. The library never computes
//! with them; it stores them and, for fitness, orders them. Both are done on
//! the 32 bits of the IEEE 754 encoding, so that a value crosses the library
//! unchanged, bit for bit.
use vstd::prelude::*;

verus! {

/// The bit pattern of a binary32 number: one sign bit, eight exponent bits,
/// twenty-three fraction bits, from the most significant bit down.
#[derive(Clone, Copy, Debug, PartialEq, Eq, Structural)]
pub struct Real32 {
    pub bits: u32,
}

/// The value of the sign bit.
pub const SIGN_BIT: u32 = 0x8000_0000;

/// The magnitude of positive infinity; every larger magnitude is a NaN.
pub const INFINITY_MAGNITUDE: u32 = 0x7f80_0000;

impl Real32 {
    /// The pattern without its sign bit.
    pub open spec fn magnitude(self) -> int {
        if self.bits >= SIGN_BIT {
            self.bits - SIGN_BIT
        } else {
            self.bits as int
        }
    }

    /// Whether the pattern encodes a negative number (or negative zero).
    pub open spec fn is_negative(self) -> bool {
        self.bits >= SIGN_BIT
    }

    /// Whether the pattern encodes no number at all.
    pub open spec fn is_nan(self) -> bool {
        self.magnitude() > INFINITY_MAGNITUDE
    }

    /// An integer that orders the patterns as the numbers they encode are
    /// ordered. Both zeros get the key 0. The key of a NaN means nothing.
    pub open spec fn order_key(self) -> int {
        if self.is_negative() {
            -self.magnitude()
        } else {
            self.magnitude()
        }
    }

    /// `self > other` as IEEE 754 defines it: false whenever one side is a NaN.
    pub open spec fn spec_gt(self, other: Real32) -> bool {
        !self.is_nan() && !other.is_nan() && self.order_key() > other.order_key()
    }

    /// `self >= other` as IEEE 754 defines it: false whenever one side is a NaN.
    pub open spec fn spec_ge(self, other: Real32) -> bool {
        !self.is_nan() && !other.is_nan() && self.order_key() >= other.order_key()
    }

    /// Wraps a bit pattern.
    pub fn from_bits(bits: u32) -> (r: Real32)
        ensures
            r.bits == bits,
    {
        Real32 { bits }
    }

    /// The bit pattern.
    pub fn to_bits(&self) -> (r: u32)
        ensures
            r == self.bits,
    {
        self.bits
    }

    /// The pattern of positive zero.
    pub fn zero() -> (r: Real32)
        ensures
            r.bits == 0,
    {
        Real32 { bits: 0 }
    }

    /// Tells whether the pattern is a NaN.
    pub fn nan(&self) -> (r: bool)
        ensures
            r == self.is_nan(),
    {
        let magnitude: u32 = if self.bits >= SIGN_BIT {
            self.bits - SIGN_BIT
        } else {
            self.bits
        };
        magnitude > INFINITY_MAGNITUDE
    }

    /// The ordering key as a machine integer.
    pub fn key(&self) -> (r: i64)
        ensures
            r == self.order_key(),
    {
        if self.bits >= SIGN_BIT {
            let magnitude: u32 = self.bits - SIGN_BIT;
            -(magnitude as i64)
        } else {
            self.bits as i64
        }
    }

    /// Strictly greater, with the meaning of `>` on the encoded numbers.
    pub fn gt(&self, other: &Real32) -> (r: bool)
        ensures
            r == self.spec_gt(*other),
    {
        !self.nan() && !other.nan() && self.key() > other.key()
    }

    /// Greater or equal, with the meaning of `>=` on the encoded numbers.
    pub fn ge(&self, other: &Real32) -> (r: bool)
        ensures
            r == self.spec_ge(*other),
    {
        !self.nan() && !other.nan() && self.key() >= other.key()
    }
}

/// Among patterns that are numbers, `>` is irreflexive and transitive, and
/// `>=` holds exactly where `>` does not hold the other way round.
pub proof fn lemma_order_is_strict_total(a: Real32, b: Real32, c: Real32)
    requires
        !a.is_nan(),
        !b.is_nan(),
        !c.is_nan(),
    ensures
        !a.spec_gt(a),
        a.spec_gt(b) && b.spec_gt(c) ==> a.spec_gt(c),
        a.spec_ge(b) <==> !b.spec_gt(a),
{
}

} // verus!
