//! Floating-point readings, carried by their bits.
//!
//! The machine's percentages and temperatures arrive as binary floating-point numbers. What is
//! decided about them here is whether two are equal and which is greater, and both can be read
//! off the bits.

use vstd::prelude::*;
use vstd::std_specs::cmp::PartialEqSpecImpl;

verus! {

/// A 32-bit floating-point number, by its bits.
#[derive(Debug, Clone, Copy)]
pub struct Float32 {
    pub bits: u32,
}

impl PartialEq for Float32 {
    fn eq(&self, other: &Self) -> (yes: bool) {
        self.equal(*other)
    }
}

impl PartialEqSpecImpl for Float32 {
    open spec fn obeys_eq_spec() -> bool {
        true
    }

    open spec fn eq_spec(&self, other: &Self) -> bool {
        self.equals(*other)
    }
}

impl Float32 {
    /// The bits without the sign.
    pub open spec fn magnitude(self) -> int {
        if self.bits >= 0x8000_0000 {
            self.bits - 0x8000_0000
        } else {
            self.bits as int
        }
    }

    /// Not a number: the exponent is full and the fraction is not zero.
    pub open spec fn is_nan(self) -> bool {
        self.magnitude() > 0x7f80_0000
    }

    /// Orders the numbers: of two that are numbers, the greater has the higher rank, and the two
    /// zeros share one.
    pub open spec fn rank(self) -> int {
        if self.bits >= 0x8000_0000 {
            -self.magnitude()
        } else {
            self.magnitude()
        }
    }

    /// Equality of floating-point numbers: the two zeros are equal, and what is not a number
    /// equals nothing.
    pub open spec fn equals(self, other: Self) -> bool {
        !self.is_nan() && !other.is_nan() && self.rank() == other.rank()
    }

    /// Zero.
    pub fn zero() -> (zero: Self)
        ensures
            zero.bits == 0,
    {
        Float32 { bits: 0 }
    }

    /// The sign taken off and put in front.
    pub fn signed_rank(self) -> (rank: i64)
        ensures
            rank == self.rank(),
    {
        if self.bits >= 0x8000_0000 {
            -((self.bits - 0x8000_0000) as i64)
        } else {
            self.bits as i64
        }
    }

    /// Whether this is not a number.
    pub fn nan(self) -> (yes: bool)
        ensures
            yes == self.is_nan(),
    {
        let rank: i64 = self.signed_rank();
        rank > 0x7f80_0000 || rank < -0x7f80_0000
    }

    /// Whether two floating-point numbers are equal.
    pub fn equal(self, other: Self) -> (yes: bool)
        ensures
            yes == self.equals(other),
    {
        !self.nan() && !other.nan() && self.signed_rank() == other.signed_rank()
    }

    /// These are the bits of a whole number that is not zero: the leading one is implied, the
    /// digits after it are the fraction, and the exponent, which is biased by 127, says where it
    /// stood.
    pub open spec fn is_whole(self, n: u8, exponent: nat, unit: nat) -> bool {
        &&& unit <= n < 2 * unit
        &&& unit == vstd::arithmetic::power2::pow2(exponent)
        &&& self.bits == (127 + exponent) * 0x80_0000 + (n - unit) * (0x80_0000int / unit as int)
    }

    /// These are the bits of the whole number `n`.
    pub open spec fn is_number(self, n: u8) -> bool {
        if n == 0 {
            self.bits == 0
        } else {
            exists|exponent: nat, unit: nat| self.is_whole(n, exponent, unit)
        }
    }

    /// A small whole number as a floating-point number.
    pub fn from_whole(n: u8) -> (float: Self)
        ensures
            float.is_number(n),
    {
        if n == 0 {
            return Float32 { bits: 0 };
        }
        let mut exponent: u32 = 0;
        let mut unit: u32 = 1;
        proof {
            vstd::arithmetic::power2::lemma2_to64();
        }
        while unit * 2 <= n as u32
            invariant
                1 <= unit <= n <= 255,
                unit == vstd::arithmetic::power2::pow2(exponent as nat),
                exponent <= 7,
                unit <= 128,
                exponent < 7 || unit == 128,
                exponent == 7 ==> unit == 128,
            decreases n - unit,
        {
            proof {
                vstd::arithmetic::power2::lemma2_to64();
                vstd::arithmetic::power2::lemma_pow2_unfold((exponent + 1) as nat);
            }
            exponent += 1;
            unit *= 2;
        }
        assert(unit <= 128 && n - unit < unit);
        let step: u32 = 0x80_0000 / unit;
        assert((n - unit) * step <= 0x80_0000) by (nonlinear_arith)
            requires
                n - unit < unit,
                unit <= n,
                unit > 0,
                step == 0x80_0000int / unit as int,
        ;
        let float = Float32 {
            bits: (127 + exponent) * 0x80_0000 + (n as u32 - unit) * step,
        };
        assert(float.is_whole(n, exponent as nat, unit as nat));
        float
    }
}

/// A 64-bit floating-point number, by its bits.
#[derive(Debug, Clone, Copy)]
pub struct Float64 {
    pub bits: u64,
}

impl PartialEq for Float64 {
    fn eq(&self, other: &Self) -> (yes: bool) {
        self.equal(*other)
    }
}

impl PartialEqSpecImpl for Float64 {
    open spec fn obeys_eq_spec() -> bool {
        true
    }

    open spec fn eq_spec(&self, other: &Self) -> bool {
        self.equals(*other)
    }
}

impl Float64 {
    /// The bits without the sign.
    pub open spec fn magnitude(self) -> int {
        if self.bits >= 0x8000_0000_0000_0000 {
            self.bits - 0x8000_0000_0000_0000
        } else {
            self.bits as int
        }
    }

    /// Not a number: the exponent is full and the fraction is not zero.
    pub open spec fn is_nan(self) -> bool {
        self.magnitude() > 0x7ff0_0000_0000_0000
    }

    /// Equality of floating-point numbers: the two zeros are equal, and what is not a number
    /// equals nothing.
    pub open spec fn equals(self, other: Self) -> bool {
        &&& !self.is_nan()
        &&& !other.is_nan()
        &&& self.bits == other.bits || (self.magnitude() == 0 && other.magnitude() == 0)
    }

    /// Zero.
    pub fn zero() -> (zero: Self)
        ensures
            zero.bits == 0,
    {
        Float64 { bits: 0 }
    }

    fn unsigned(self) -> (magnitude: u64)
        ensures
            magnitude == self.magnitude(),
    {
        if self.bits >= 0x8000_0000_0000_0000 {
            self.bits - 0x8000_0000_0000_0000
        } else {
            self.bits
        }
    }

    /// Whether two floating-point numbers are equal.
    pub fn equal(self, other: Self) -> (yes: bool)
        ensures
            yes == self.equals(other),
    {
        let mine: u64 = self.unsigned();
        let theirs: u64 = other.unsigned();
        mine <= 0x7ff0_0000_0000_0000 && theirs <= 0x7ff0_0000_0000_0000 && (self.bits == other.bits
            || (mine == 0 && theirs == 0))
    }
}

/// Two numbers are equal where they have the same bits, or are the two zeros, and nowhere else.
/// What is not a number, with a full exponent and a fraction, equals nothing, not even itself.
pub proof fn law_equality_of_small_floats(one: Float32, other: Float32)
    ensures
        one.is_nan() <==> 0x7f80_0000 < one.bits < 0x8000_0000 || one.bits > 0xff80_0000,
        one.equals(one) <==> !one.is_nan(),
        one.equals(other) <==> other.equals(one),
        one.is_nan() ==> !one.equals(other),
        !one.is_nan() && !other.is_nan() ==> (one.equals(other) <==> one.bits == other.bits || ((
        one.bits == 0 || one.bits == 0x8000_0000) && (other.bits == 0 || other.bits
            == 0x8000_0000))),
{
}

/// The rank orders as the numbers do: of two with no sign the one with the greater bits is the
/// greater, of two with a sign it is the smaller, and one with a sign is no greater than one
/// without.
pub proof fn law_rank_orders_small_floats(one: Float32, other: Float32)
    ensures
        one.bits < 0x8000_0000 && other.bits < 0x8000_0000 ==> (one.rank() < other.rank()
            <==> one.bits < other.bits),
        one.bits >= 0x8000_0000 && other.bits >= 0x8000_0000 ==> (one.rank() < other.rank()
            <==> one.bits > other.bits),
        one.bits >= 0x8000_0000 && other.bits < 0x8000_0000 ==> one.rank() <= other.rank(),
        one.rank() == 0 <==> one.bits == 0 || one.bits == 0x8000_0000,
{
}

/// Two numbers are equal where they have the same bits, or are the two zeros, and nowhere else.
/// What is not a number, with a full exponent and a fraction, equals nothing, not even itself.
pub proof fn law_equality_of_large_floats(one: Float64, other: Float64)
    ensures
        one.is_nan() <==> 0x7ff0_0000_0000_0000 < one.bits < 0x8000_0000_0000_0000 || one.bits
            > 0xfff0_0000_0000_0000,
        one.equals(one) <==> !one.is_nan(),
        one.equals(other) <==> other.equals(one),
        one.is_nan() ==> !one.equals(other),
        !one.is_nan() && !other.is_nan() ==> (one.equals(other) <==> one.bits == other.bits || ((
        one.bits == 0 || one.bits == 0x8000_0000_0000_0000) && (other.bits == 0 || other.bits
            == 0x8000_0000_0000_0000))),
{
}

} // verus!
