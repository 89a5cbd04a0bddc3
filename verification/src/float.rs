//! Floating-point numbers as bit patterns.
//!
//! Coordinates, magnitudes and scores are IEEE 754 numbers. The library never
//! computes with them: it compares them, and it tests them against fixed
//! bounds. [`Double`] and [`Single`] hold the bit patterns of 64-bit and 32-bit
//! numbers (what `to_bits` gives), which is all that takes. `==` compares the
//! numbers, not the patterns: both zeros are equal, and what is no number equals
//! nothing, not even itself.

use vstd::prelude::*;

verus! {

/// The first bit pattern above the magnitudes: the sign bit alone.
pub const DOUBLE_SIGN: u64 = 0x8000_0000_0000_0000;

/// The magnitude of infinity; a larger magnitude is not a number.
pub const DOUBLE_INFINITY: u64 = 0x7ff0_0000_0000_0000;

/// The bit pattern of 360.
pub const DOUBLE_360: u64 = 0x4076_8000_0000_0000;

/// The bit pattern of 90.
pub const DOUBLE_90: u64 = 0x4056_8000_0000_0000;

/// The sign bit of a 32-bit number.
pub const SINGLE_SIGN: u32 = 0x8000_0000;

/// The magnitude of the 32-bit infinity.
pub const SINGLE_INFINITY: u32 = 0x7f80_0000;

/// A 64-bit floating-point number, by its bit pattern.
#[derive(Clone, Copy, Debug)]
pub struct Double {
    /// The bit pattern.
    pub bits: u64,
}

impl Double {
    /// The bit pattern without the sign bit.
    pub open spec fn magnitude(self) -> int {
        if self.bits >= DOUBLE_SIGN {
            self.bits - DOUBLE_SIGN
        } else {
            self.bits as int
        }
    }

    /// Whether this is a number at all.
    pub open spec fn is_number(self) -> bool {
        self.magnitude() <= DOUBLE_INFINITY
    }

    /// Whether the number is neither infinite nor not-a-number.
    pub open spec fn finite(self) -> bool {
        self.magnitude() < DOUBLE_INFINITY
    }

    /// The place among the numbers: the smaller number has the smaller rank, and
    /// both zeros have rank 0.
    pub open spec fn rank(self) -> int {
        if self.bits >= DOUBLE_SIGN {
            -self.magnitude()
        } else {
            self.magnitude()
        }
    }

    /// Whether this is a right ascension in degrees: in `[0, 360)`.
    pub open spec fn right_ascension(self) -> bool {
        self.finite() && 0 <= self.rank() < DOUBLE_360
    }

    /// Whether this is a declination in degrees: in `[-90, 90]`.
    pub open spec fn declination(self) -> bool {
        self.finite() && -DOUBLE_90 <= self.rank() <= DOUBLE_90
    }

    /// Whether this is a separation: finite and not negative.
    pub open spec fn separation(self) -> bool {
        self.finite() && 0 <= self.rank()
    }

    fn size(self) -> (r: u64)
        ensures
            r == self.magnitude(),
    {
        if self.bits >= DOUBLE_SIGN {
            self.bits - DOUBLE_SIGN
        } else {
            self.bits
        }
    }

    /// Whether the number is neither infinite nor not-a-number.
    pub fn is_finite(self) -> (r: bool)
        ensures
            r == self.finite(),
    {
        self.size() < DOUBLE_INFINITY
    }

    /// Whether this is a right ascension in degrees: in `[0, 360)`.
    pub fn is_right_ascension(self) -> (r: bool)
        ensures
            r == self.right_ascension(),
    {
        self.bits < DOUBLE_360 || self.bits == DOUBLE_SIGN
    }

    /// Whether this is a declination in degrees: in `[-90, 90]`.
    pub fn is_declination(self) -> (r: bool)
        ensures
            r == self.declination(),
    {
        self.size() <= DOUBLE_90
    }

    /// Whether this is a separation: finite and not negative.
    pub fn is_separation(self) -> (r: bool)
        ensures
            r == self.separation(),
    {
        self.bits < DOUBLE_INFINITY || self.bits == DOUBLE_SIGN
    }
}

impl PartialEq for Double {
    /// Whether both are numbers, and the same one.
    fn eq(&self, other: &Self) -> (r: bool) {
        self.size() <= DOUBLE_INFINITY && (self.bits == other.bits || (self.size() == 0
            && other.size() == 0))
    }
}

impl vstd::std_specs::cmp::PartialEqSpecImpl for Double {
    open spec fn obeys_eq_spec() -> bool {
        true
    }

    open spec fn eq_spec(&self, other: &Self) -> bool {
        self.is_number() && other.is_number() && self.rank() == other.rank()
    }
}

/// A 32-bit floating-point number, by its bit pattern.
#[derive(Clone, Copy, Debug)]
pub struct Single {
    /// The bit pattern.
    pub bits: u32,
}

impl Single {
    /// The bit pattern without the sign bit.
    pub open spec fn magnitude(self) -> int {
        if self.bits >= SINGLE_SIGN {
            self.bits - SINGLE_SIGN
        } else {
            self.bits as int
        }
    }

    /// Whether this is a number at all.
    pub open spec fn is_number(self) -> bool {
        self.magnitude() <= SINGLE_INFINITY
    }

    /// The place among the numbers: the smaller number has the smaller rank, and
    /// both zeros have rank 0.
    pub open spec fn rank(self) -> int {
        if self.bits >= SINGLE_SIGN {
            -self.magnitude()
        } else {
            self.magnitude()
        }
    }

    /// What `>=` means: never true where either side is not a number.
    pub open spec fn at_least(self, other: Self) -> bool {
        self.is_number() && other.is_number() && self.rank() >= other.rank()
    }

    /// What `>` means: never true where either side is not a number.
    pub open spec fn above(self, other: Self) -> bool {
        self.is_number() && other.is_number() && self.rank() > other.rank()
    }

    /// The place in the total order of all bit patterns, in which negative zero
    /// goes before zero and what is no number goes to the ends.
    pub open spec fn total_rank(self) -> int {
        if self.bits >= SINGLE_SIGN {
            -self.magnitude() - 1
        } else {
            self.magnitude()
        }
    }

    fn size(self) -> (r: u32)
        ensures
            r == self.magnitude(),
    {
        if self.bits >= SINGLE_SIGN {
            self.bits - SINGLE_SIGN
        } else {
            self.bits
        }
    }

    fn place(self) -> (r: i64)
        ensures
            r == self.rank(),
    {
        let m: i64 = self.size() as i64;
        if self.bits >= SINGLE_SIGN {
            -m
        } else {
            m
        }
    }

    /// Whether `self >= other`.
    pub fn is_at_least(self, other: Self) -> (r: bool)
        ensures
            r == self.at_least(other),
    {
        self.size() <= SINGLE_INFINITY && other.size() <= SINGLE_INFINITY && self.place()
            >= other.place()
    }

    /// Whether `self > other`.
    pub fn is_above(self, other: Self) -> (r: bool)
        ensures
            r == self.above(other),
    {
        self.size() <= SINGLE_INFINITY && other.size() <= SINGLE_INFINITY && self.place()
            > other.place()
    }

    /// The place in the total order.
    pub fn total_place(self) -> (r: i64)
        ensures
            r == self.total_rank(),
    {
        let m: i64 = self.size() as i64;
        if self.bits >= SINGLE_SIGN {
            -m - 1
        } else {
            m
        }
    }
}

impl PartialEq for Single {
    /// Whether both are numbers, and the same one.
    fn eq(&self, other: &Self) -> (r: bool) {
        self.size() <= SINGLE_INFINITY && other.size() <= SINGLE_INFINITY && self.place()
            == other.place()
    }
}

impl vstd::std_specs::cmp::PartialEqSpecImpl for Single {
    open spec fn obeys_eq_spec() -> bool {
        true
    }

    open spec fn eq_spec(&self, other: &Self) -> bool {
        self.is_number() && other.is_number() && self.rank() == other.rank()
    }
}

} // verus!
