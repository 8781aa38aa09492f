use vstd::prelude::*;

verus! {

/// The weight of the sign bit of a double.
pub const SIGN: u64 = 0x8000_0000_0000_0000;

/// The bit pattern of positive infinity; every larger pattern below
/// [`SIGN`] is a NaN.
pub const INFINITY: u64 = 0x7ff0_0000_0000_0000;

/// An IEEE 754 double-precision number, held as its bit pattern.
#[derive(Debug, Clone, Copy)]
pub struct Double {
    pub bits: u64,
}

impl Double {
    /// Whether the sign bit is set.
    pub open spec fn negative(self) -> bool {
        self.bits >= SIGN
    }

    /// The bit pattern without its sign bit.
    pub open spec fn magnitude(self) -> u64 {
        if self.bits >= SIGN {
            (self.bits - SIGN) as u64
        } else {
            self.bits
        }
    }

    pub open spec fn nan(self) -> bool {
        self.magnitude() > INFINITY
    }

    /// A whole number that orders every double that is not a NaN, and
    /// gives both zeros the same place.
    pub open spec fn rank(self) -> int {
        if self.negative() {
            -(self.magnitude() as int)
        } else {
            self.magnitude() as int
        }
    }

    /// Numeric equality: no NaN equals anything, and the two zeros are
    /// equal.
    pub open spec fn equals(self, other: Double) -> bool {
        !self.nan() && !other.nan() && self.rank() == other.rank()
    }

    /// The same number with its sign bit flipped.
    pub open spec fn negated(self) -> Double {
        if self.negative() {
            Double { bits: (self.bits - SIGN) as u64 }
        } else {
            Double { bits: (self.bits + SIGN) as u64 }
        }
    }

    pub fn from_bits(bits: u64) -> (r: Double)
        ensures
            r.bits == bits,
    {
        Double { bits }
    }

    pub fn to_bits(self) -> (r: u64)
        ensures
            r == self.bits,
    {
        self.bits
    }

    pub fn is_nan(self) -> (r: bool)
        ensures
            r == self.nan(),
    {
        let magnitude: u64 = if self.bits >= SIGN {
            self.bits - SIGN
        } else {
            self.bits
        };
        magnitude > INFINITY
    }

    fn rank_number(self) -> (r: i128)
        ensures
            r == self.rank(),
    {
        if self.bits >= SIGN {
            -((self.bits - SIGN) as i128)
        } else {
            self.bits as i128
        }
    }

    /// Numeric equality.
    pub fn same(self, other: Double) -> (r: bool)
        ensures
            r == self.equals(other),
    {
        !self.is_nan() && !other.is_nan() && self.rank_number() == other.rank_number()
    }

    /// Whether this number is strictly below `other`.
    pub fn below(self, other: Double) -> (r: bool)
        ensures
            r == (!self.nan() && !other.nan() && self.rank() < other.rank()),
    {
        !self.is_nan() && !other.is_nan() && self.rank_number() < other.rank_number()
    }

    /// The number with its sign bit flipped.
    pub fn negate(self) -> (r: Double)
        ensures
            r == self.negated(),
    {
        if self.bits >= SIGN {
            Double { bits: self.bits - SIGN }
        } else {
            Double { bits: self.bits + SIGN }
        }
    }
}

impl PartialEq for Double {
    fn eq(&self, other: &Double) -> (r: bool) {
        self.same(*other)
    }
}

impl vstd::std_specs::cmp::PartialEqSpecImpl for Double {
    open spec fn obeys_eq_spec() -> bool {
        true
    }

    open spec fn eq_spec(&self, other: &Double) -> bool {
        self.equals(*other)
    }
}

} // verus!
