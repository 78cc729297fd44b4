//! Numbers as settings and times hold them, by their bits.
use crate::float::Format;
use vstd::prelude::*;

verus! {

/// A single-precision number.
#[derive(Clone, Copy, PartialEq, Eq, Structural, Debug)]
pub struct Real32 {
    pub bits: u32,
}

impl Real32 {
    pub open spec fn at(self) -> nat {
        self.bits as nat
    }

    #[verifier::opaque]
    pub open spec fn finite(self) -> bool {
        Format::Single.finite(self.at())
    }

    #[verifier::opaque]
    pub open spec fn below(self, other: Self) -> bool {
        Format::Single.less(self.at(), other.at())
    }

    #[verifier::opaque]
    pub open spec fn up_to(self, other: Self) -> bool {
        Format::Single.at_most(self.at(), other.at())
    }

    /// Whether two numbers compare equal, as 0 and -0 do and a NaN never does.
    #[verifier::opaque]
    pub open spec fn equal(self, other: Self) -> bool {
        Format::Single.same(self.at(), other.at())
    }

    /// A number's distance from zero.
    #[verifier::opaque]
    pub open spec fn absolute(self) -> Self {
        Real32 { bits: Format::Single.magnitude(self.at()) as u32 }
    }

    #[verifier::opaque]
    pub open spec fn plus(self, other: Self) -> Self {
        Real32 { bits: Format::Single.sum(self.at(), other.at()) as u32 }
    }

    #[verifier::opaque]
    pub open spec fn minus(self, other: Self) -> Self {
        Real32 { bits: Format::Single.difference(self.at(), other.at()) as u32 }
    }

    #[verifier::opaque]
    pub open spec fn times(self, other: Self) -> Self {
        Real32 { bits: Format::Single.product(self.at(), other.at()) as u32 }
    }

    #[verifier::opaque]
    pub open spec fn over(self, other: Self) -> Self {
        Real32 { bits: Format::Single.quotient(self.at(), other.at()) as u32 }
    }

    /// The number nearest to an integer.
    #[verifier::opaque]
    pub open spec fn of(n: nat) -> Self {
        Real32 { bits: Format::Single.of(n) as u32 }
    }

    /// The integer nearest to the number, halves away from zero, within 0 and `most`.
    #[verifier::opaque]
    pub open spec fn rounded(self, most: nat) -> nat {
        Format::Single.rounded(self.at(), most)
    }

    /// The number without its fraction, within 0 and `most`.
    #[verifier::opaque]
    pub open spec fn truncated(self, most: nat) -> nat {
        Format::Single.truncated(self.at(), most)
    }

    /// The largest integer that the number reaches, within `most` of zero.
    #[verifier::opaque]
    pub open spec fn floored(self, most: nat) -> int {
        Format::Single.floored(self.at(), most)
    }

    pub open spec fn negated(self) -> Self {
        Real32 { bits: Format::Single.negated(self.at()) as u32 }
    }

    /// The number nearest to an integer of either sign.
    pub open spec fn of_signed(n: int) -> Self {
        if n < 0 {
            Self::of((-n) as nat).negated()
        } else {
            Self::of(n as nat)
        }
    }

    pub fn is_finite(self) -> (r: bool)
        ensures
            r == self.finite(),
    {
        proof {
            reveal(Real32::finite);
        }
        Format::Single.is_finite(self.bits as u64)
    }

    pub fn less(self, other: Self) -> (r: bool)
        ensures
            r == self.below(other),
    {
        proof {
            reveal(Real32::below);
        }
        Format::Single.less_than(self.bits as u64, other.bits as u64)
    }

    pub fn at_most(self, other: Self) -> (r: bool)
        ensures
            r == self.up_to(other),
    {
        proof {
            reveal(Real32::up_to);
        }
        Format::Single.is_at_most(self.bits as u64, other.bits as u64)
    }

    pub fn same(self, other: Self) -> (r: bool)
        ensures
            r == self.equal(other),
    {
        proof {
            reveal(Real32::equal);
        }
        Format::Single.equals(self.bits as u64, other.bits as u64)
    }

    pub fn abs(self) -> (r: Self)
        ensures
            r == self.absolute(),
    {
        proof {
            reveal(Real32::absolute);
        }
        if self.bits >= 0x8000_0000 {
            proof {
                vstd::arithmetic::div_mod::lemma_fundamental_div_mod_converse(
                    self.bits as int,
                    0x8000_0000,
                    1,
                    self.bits - 0x8000_0000,
                );
            }
            Real32 { bits: self.bits - 0x8000_0000 }
        } else {
            self
        }
    }

    pub fn add(self, other: Self) -> (r: Self)
        ensures
            r == self.plus(other),
    {
        proof {
            reveal(Real32::plus);
        }
        Real32 { bits: Format::Single.add(self.bits as u64, other.bits as u64) as u32 }
    }

    pub fn sub(self, other: Self) -> (r: Self)
        ensures
            r == self.minus(other),
    {
        proof {
            reveal(Real32::minus);
        }
        Real32 { bits: Format::Single.subtract(self.bits as u64, other.bits as u64) as u32 }
    }

    pub fn mul(self, other: Self) -> (r: Self)
        ensures
            r == self.times(other),
    {
        proof {
            reveal(Real32::times);
        }
        Real32 { bits: Format::Single.multiply(self.bits as u64, other.bits as u64) as u32 }
    }

    pub fn div(self, other: Self) -> (r: Self)
        ensures
            r == self.over(other),
    {
        proof {
            reveal(Real32::over);
        }
        Real32 { bits: Format::Single.divide(self.bits as u64, other.bits as u64) as u32 }
    }

    pub fn from_integer(n: u64) -> (r: Self)
        ensures
            r == Self::of(n as nat),
    {
        proof {
            reveal(Real32::of);
        }
        Real32 { bits: Format::Single.from_integer(n) as u32 }
    }

    pub fn round(self, most: u32) -> (r: u32)
        ensures
            r == self.rounded(most as nat),
            r <= most,
    {
        proof {
            reveal(Real32::rounded);
        }
        Format::Single.round_to(self.bits as u64, most as u64) as u32
    }

    pub fn floor(self, most: i64) -> (r: i64)
        requires
            most >= 0,
        ensures
            r == self.floored(most as nat),
            -most <= r <= most,
    {
        proof {
            reveal(Real32::floored);
        }
        Format::Single.floor_to(self.bits as u64, most)
    }

    pub fn neg(self) -> (r: Self)
        ensures
            r == self.negated(),
    {
        Real32 { bits: Format::Single.negate(self.bits as u64) as u32 }
    }

    pub fn from_signed(n: i64) -> (r: Self)
        requires
            n > i64::MIN,
        ensures
            r == Self::of_signed(n as int),
    {
        if n < 0 {
            Self::from_integer((-n) as u64).neg()
        } else {
            Self::from_integer(n as u64)
        }
    }

    pub fn truncate(self, most: u32) -> (r: u32)
        ensures
            r == self.truncated(most as nat),
            r <= most,
    {
        proof {
            reveal(Real32::truncated);
        }
        Format::Single.truncate_to(self.bits as u64, most as u64) as u32
    }
}

/// A double-precision number.
#[derive(Clone, Copy, PartialEq, Eq, Structural, Debug)]
pub struct Real64 {
    pub bits: u64,
}

impl Real64 {
    pub open spec fn at(self) -> nat {
        self.bits as nat
    }

    #[verifier::opaque]
    pub open spec fn finite(self) -> bool {
        Format::Double.finite(self.at())
    }

    #[verifier::opaque]
    pub open spec fn below(self, other: Self) -> bool {
        Format::Double.less(self.at(), other.at())
    }

    #[verifier::opaque]
    pub open spec fn up_to(self, other: Self) -> bool {
        Format::Double.at_most(self.at(), other.at())
    }

    /// Whether two numbers compare equal, as 0 and -0 do and a NaN never does.
    #[verifier::opaque]
    pub open spec fn equal(self, other: Self) -> bool {
        Format::Double.same(self.at(), other.at())
    }

    #[verifier::opaque]
    pub open spec fn plus(self, other: Self) -> Self {
        Real64 { bits: Format::Double.sum(self.at(), other.at()) as u64 }
    }

    #[verifier::opaque]
    pub open spec fn minus(self, other: Self) -> Self {
        Real64 { bits: Format::Double.difference(self.at(), other.at()) as u64 }
    }

    #[verifier::opaque]
    pub open spec fn times(self, other: Self) -> Self {
        Real64 { bits: Format::Double.product(self.at(), other.at()) as u64 }
    }

    #[verifier::opaque]
    pub open spec fn over(self, other: Self) -> Self {
        Real64 { bits: Format::Double.quotient(self.at(), other.at()) as u64 }
    }

    /// The number nearest to an integer.
    #[verifier::opaque]
    pub open spec fn of(n: nat) -> Self {
        Real64 { bits: Format::Double.of(n) as u64 }
    }

    /// The integer nearest to the number, halves away from zero, within 0 and `most`.
    #[verifier::opaque]
    pub open spec fn rounded(self, most: nat) -> nat {
        Format::Double.rounded(self.at(), most)
    }

    /// The number without its fraction, within 0 and `most`.
    #[verifier::opaque]
    pub open spec fn truncated(self, most: nat) -> nat {
        Format::Double.truncated(self.at(), most)
    }

    pub open spec fn negated(self) -> Self {
        Real64 {
            bits: if self.bits < 0x8000_0000_0000_0000 {
                (self.bits + 0x8000_0000_0000_0000) as u64
            } else {
                (self.bits - 0x8000_0000_0000_0000) as u64
            },
        }
    }

    /// The number without its sign.
    pub open spec fn absolute(self) -> Self {
        if self.bits < 0x8000_0000_0000_0000 {
            self
        } else {
            self.negated()
        }
    }

    /// The number nearest to an integer of either sign.
    pub open spec fn of_signed(n: int) -> Self {
        if n < 0 {
            Self::of((-n) as nat).negated()
        } else {
            Self::of(n as nat)
        }
    }

    /// The least integer that is not below the number, within 0 and `most`.
    pub open spec fn ceiled(self, most: nat) -> nat {
        let whole = self.truncated(most);
        if whole < most && Self::of(whole).below(self) {
            whole + 1
        } else {
            whole
        }
    }

    /// The integer nearest to the number, halves away from zero, within `-most` and `most`.
    pub open spec fn rounded_signed(self, most: nat) -> int {
        if self.bits < 0x8000_0000_0000_0000 {
            self.rounded(most) as int
        } else {
            -(self.negated().rounded(most) as int)
        }
    }

    /// The whole number nearest to the number, halves away from zero, with the number's sign.
    /// From 2^52 on every number is whole.
    pub open spec fn whole(self) -> Self {
        let size = self.absolute();
        if !size.below(Self::of(0x10_0000_0000_0000)) {
            self
        } else if self.bits < 0x8000_0000_0000_0000 {
            Self::of(size.rounded(0x10_0000_0000_0000))
        } else {
            Self::of(size.rounded(0x10_0000_0000_0000)).negated()
        }
    }

    /// The smaller of two numbers; of a number and a NaN, the number.
    pub open spec fn lesser(self, other: Self) -> Self {
        if Format::Double.nan(self.at()) || other.below(self) {
            other
        } else {
            self
        }
    }

    pub fn is_finite(self) -> (r: bool)
        ensures
            r == self.finite(),
    {
        proof {
            reveal(Real64::finite);
        }
        Format::Double.is_finite(self.bits)
    }

    pub fn less(self, other: Self) -> (r: bool)
        ensures
            r == self.below(other),
    {
        proof {
            reveal(Real64::below);
        }
        Format::Double.less_than(self.bits, other.bits)
    }

    pub fn at_most(self, other: Self) -> (r: bool)
        ensures
            r == self.up_to(other),
    {
        proof {
            reveal(Real64::up_to);
        }
        Format::Double.is_at_most(self.bits, other.bits)
    }

    pub fn same(self, other: Self) -> (r: bool)
        ensures
            r == self.equal(other),
    {
        proof {
            reveal(Real64::equal);
        }
        Format::Double.equals(self.bits, other.bits)
    }

    pub fn add(self, other: Self) -> (r: Self)
        ensures
            r == self.plus(other),
    {
        proof {
            reveal(Real64::plus);
        }
        Real64 { bits: Format::Double.add(self.bits, other.bits) }
    }

    pub fn sub(self, other: Self) -> (r: Self)
        ensures
            r == self.minus(other),
    {
        proof {
            reveal(Real64::minus);
        }
        Real64 { bits: Format::Double.subtract(self.bits, other.bits) }
    }

    pub fn mul(self, other: Self) -> (r: Self)
        ensures
            r == self.times(other),
    {
        proof {
            reveal(Real64::times);
        }
        Real64 { bits: Format::Double.multiply(self.bits, other.bits) }
    }

    pub fn div(self, other: Self) -> (r: Self)
        ensures
            r == self.over(other),
    {
        proof {
            reveal(Real64::over);
        }
        Real64 { bits: Format::Double.divide(self.bits, other.bits) }
    }

    pub fn from_integer(n: u64) -> (r: Self)
        ensures
            r == Self::of(n as nat),
    {
        proof {
            reveal(Real64::of);
        }
        Real64 { bits: Format::Double.from_integer(n) }
    }

    pub fn round(self, most: u64) -> (r: u64)
        ensures
            r == self.rounded(most as nat),
            r <= most,
    {
        proof {
            reveal(Real64::rounded);
        }
        Format::Double.round_to(self.bits, most)
    }

    pub fn truncate(self, most: u64) -> (r: u64)
        ensures
            r == self.truncated(most as nat),
            r <= most,
    {
        proof {
            reveal(Real64::truncated);
        }
        Format::Double.truncate_to(self.bits, most)
    }

    pub fn neg(self) -> (r: Self)
        ensures
            r == self.negated(),
    {
        if self.bits < 0x8000_0000_0000_0000 {
            Real64 { bits: self.bits + 0x8000_0000_0000_0000 }
        } else {
            Real64 { bits: self.bits - 0x8000_0000_0000_0000 }
        }
    }

    pub fn abs(self) -> (r: Self)
        ensures
            r == self.absolute(),
    {
        if self.bits < 0x8000_0000_0000_0000 {
            self
        } else {
            self.neg()
        }
    }

    pub fn from_signed(n: i64) -> (r: Self)
        requires
            n > i64::MIN,
        ensures
            r == Self::of_signed(n as int),
    {
        if n < 0 {
            Self::from_integer((-n) as u64).neg()
        } else {
            Self::from_integer(n as u64)
        }
    }

    pub fn ceil(self, most: u64) -> (r: u64)
        ensures
            r == self.ceiled(most as nat),
            r <= most,
    {
        let whole: u64 = self.truncate(most);
        if whole < most && Self::from_integer(whole).less(self) {
            whole + 1
        } else {
            whole
        }
    }

    pub fn round_signed(self, most: u64) -> (r: i64)
        requires
            most <= i64::MAX,
        ensures
            r == self.rounded_signed(most as nat),
            -(most as int) <= r <= most,
    {
        if self.bits < 0x8000_0000_0000_0000 {
            self.round(most) as i64
        } else {
            let n: i64 = self.neg().round(most) as i64;
            -n
        }
    }

    pub fn round_whole(self) -> (r: Self)
        ensures
            r == self.whole(),
    {
        let size: Self = self.abs();
        if !size.less(Self::from_integer(0x10_0000_0000_0000)) {
            self
        } else {
            let n: u64 = size.round(0x10_0000_0000_0000);
            if self.bits < 0x8000_0000_0000_0000 {
                Self::from_integer(n)
            } else {
                Self::from_integer(n).neg()
            }
        }
    }

    /// The number that a text holds, as `decimal` reads it.
    pub open spec fn read(s: Seq<char>) -> Option<Self> {
        match crate::decimal::decimal_bits(Format::Double, s) {
            Some(bits) => Some(Real64 { bits: bits as u64 }),
            None => None,
        }
    }

    pub fn parse(chars: &[char]) -> (r: Option<Self>)
        ensures
            r == Self::read(chars@),
    {
        match crate::decimal::parse_decimal(Format::Double, chars) {
            Some(bits) => Some(Real64 { bits }),
            None => None,
        }
    }

    pub fn min(self, other: Self) -> (r: Self)
        ensures
            r == self.lesser(other),
    {
        let own: bool = Format::Double.is_at_most(self.bits, self.bits);
        if !own || other.less(self) {
            other
        } else {
            self
        }
    }
}

impl Real32 {
    /// The same number in double precision.
    #[verifier::opaque]
    pub open spec fn widened(self) -> Real64 {
        Real64 { bits: Format::Double.converted(Format::Single, self.at()) as u64 }
    }

    pub fn widen(self) -> (r: Real64)
        ensures
            r == self.widened(),
    {
        proof {
            reveal(Real32::widened);
        }
        Real64 { bits: Format::Double.convert(Format::Single, self.bits as u64) }
    }
}

impl Real64 {
    /// The nearest number in single precision.
    #[verifier::opaque]
    pub open spec fn narrowed(self) -> Real32 {
        Real32 { bits: Format::Single.converted(Format::Double, self.at()) as u32 }
    }

    pub fn narrow(self) -> (r: Real32)
        ensures
            r == self.narrowed(),
    {
        proof {
            reveal(Real64::narrowed);
        }
        Real32 { bits: Format::Single.convert(Format::Double, self.bits) as u32 }
    }

    /// The larger of two numbers; of a number and a NaN, the number.
    pub open spec fn greater(self, other: Self) -> Self {
        if Format::Double.nan(self.at()) || self.below(other) {
            other
        } else {
            self
        }
    }

    pub fn max(self, other: Self) -> (r: Self)
        ensures
            r == self.greater(other),
    {
        let own: bool = Format::Double.is_at_most(self.bits, self.bits);
        if !own || self.less(other) {
            other
        } else {
            self
        }
    }

    /// A number kept between two others.
    pub open spec fn clamped(self, least: Self, most: Self) -> Self {
        if self.below(least) {
            least
        } else if most.below(self) {
            most
        } else {
            self
        }
    }

    pub fn clamp(self, least: Self, most: Self) -> (r: Self)
        ensures
            r == self.clamped(least, most),
    {
        if self.less(least) {
            least
        } else if most.less(self) {
            most
        } else {
            self
        }
    }
}

} // verus!
