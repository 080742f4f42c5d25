//! Floating-point numbers as bit patterns.
//!
//! The library carries the eight bytes of an IEEE 754 number and looks at them
//! only to tell what kind of number they are.
use vstd::prelude::*;

verus! {

/// An eight-byte floating-point number.
#[derive(Debug, Clone, Copy, PartialEq, Eq, Structural)]
pub struct Double {
    pub bits: u64,
}

/// The pattern of positive infinity: an exponent of all ones, no fraction.
pub const INFINITY_BITS: u64 = 0x7FF0_0000_0000_0000;

/// The weight of the sign bit.
pub const SIGN_BIT: u64 = 0x8000_0000_0000_0000;

impl Double {
    /// The pattern without its sign.
    pub open spec fn magnitude(self) -> int {
        self.bits as int % SIGN_BIT as int
    }

    /// No number: an exponent of all ones and a fraction.
    pub open spec fn nan(self) -> bool {
        self.magnitude() > INFINITY_BITS
    }

    /// A number greater than zero and less than infinity.
    pub open spec fn positive_finite(self) -> bool {
        0 < self.bits < INFINITY_BITS
    }

    /// Whether this is no number.
    pub fn is_nan(&self) -> (r: bool)
        ensures
            r == self.nan(),
    {
        self.bits % SIGN_BIT > INFINITY_BITS
    }

    /// Whether this is greater than zero and less than infinity.
    pub fn is_positive_finite(&self) -> (r: bool)
        ensures
            r == self.positive_finite(),
    {
        0 < self.bits && self.bits < INFINITY_BITS
    }

    /// The pattern that stands for no number.
    pub fn not_a_number() -> (r: Double)
        ensures
            r.nan(),
            r.bits == 0x7FF8_0000_0000_0000,
    {
        Double { bits: 0x7FF8_0000_0000_0000 }
    }
}

/// A pattern is no number where its exponent is all ones and its fraction is not
/// zero, whatever its sign; infinity is a number. Positive and finite are the
/// patterns without a sign whose exponent is not all ones, but for zero.
pub proof fn law_patterns(d: Double)
    ensures
        d.nan() <==> (d.bits & 0x7FF0_0000_0000_0000 == 0x7FF0_0000_0000_0000 && d.bits
            & 0x000F_FFFF_FFFF_FFFF != 0),
        d.positive_finite() <==> (d.bits & 0x8000_0000_0000_0000 == 0 && d.bits
            & 0x7FF0_0000_0000_0000 != 0x7FF0_0000_0000_0000 && d.bits != 0),
{
    let b = d.bits;
    assert((b % 0x8000_0000_0000_0000 > 0x7FF0_0000_0000_0000) <==> (b & 0x7FF0_0000_0000_0000
        == 0x7FF0_0000_0000_0000 && b & 0x000F_FFFF_FFFF_FFFF != 0)) by (bit_vector);
    assert((0 < b && b < 0x7FF0_0000_0000_0000) <==> (b & 0x8000_0000_0000_0000 == 0 && b
        & 0x7FF0_0000_0000_0000 != 0x7FF0_0000_0000_0000 && b != 0)) by (bit_vector);
}

}
