//! Scalars as bit patterns, and complex conjugation.
//!
//! A binary floating-point value is held by its IEEE 754 interchange format. Equality of these
//! types compares the bit patterns; it is not the numeric comparison.

use vstd::prelude::*;

verus! {

/// A half precision number.
#[derive(Clone, Copy, Debug, PartialEq, Eq, Structural)]
pub struct Half {
    pub bits: u16,
}

/// A single precision number.
#[derive(Clone, Copy, Debug, PartialEq, Eq, Structural)]
pub struct Single {
    pub bits: u32,
}

/// A double precision number.
#[derive(Clone, Copy, Debug, PartialEq, Eq, Structural)]
pub struct Double {
    pub bits: u64,
}

/// A complex number in single precision.
#[allow(non_camel_case_types)]
#[derive(Clone, Copy, Debug, PartialEq, Eq, Structural)]
pub struct c32 {
    pub re: Single,
    pub im: Single,
}

/// A complex number in double precision.
#[allow(non_camel_case_types)]
#[derive(Clone, Copy, Debug, PartialEq, Eq, Structural)]
pub struct c64 {
    pub re: Double,
    pub im: Double,
}

impl Half {
    /// All exponent bits set and a fraction that is not zero.
    pub open spec fn is_nan(self) -> bool {
        self.bits & 0x7fff > 0x7c00
    }

    /// Numeric equality: the two zeros are equal, and a NaN equals nothing.
    pub open spec fn equals(self, other: Half) -> bool {
        &&& !self.is_nan()
        &&& !other.is_nan()
        &&& self == other || (self.bits | other.bits) & 0x7fff == 0
    }

    /// Numeric equality.
    pub fn eq_value(self, other: Half) -> (r: bool)
        ensures
            r == self.equals(other),
    {
        if self.bits & 0x7fff > 0x7c00 || other.bits & 0x7fff > 0x7c00 {
            false
        } else {
            self.bits == other.bits || (self.bits | other.bits) & 0x7fff == 0
        }
    }

    /// Positive zero.
    pub open spec fn zero_value() -> Half {
        Half { bits: 0 }
    }

    /// Positive zero.
    pub fn zero() -> (r: Half)
        ensures
            r == Half::zero_value(),
    {
        Half { bits: 0 }
    }

    /// The number one.
    pub open spec fn one_value() -> Half {
        Half { bits: 0x3c00 }
    }

    /// The number one.
    pub fn one() -> (r: Half)
        ensures
            r == Half::one_value(),
    {
        Half { bits: 0x3c00 }
    }
}

impl Single {
    /// The number with its sign bit inverted.
    pub open spec fn negated(self) -> Single {
        Single { bits: self.bits ^ 0x8000_0000 }
    }

    /// All exponent bits set and a fraction that is not zero.
    pub open spec fn is_nan(self) -> bool {
        self.bits & 0x7fff_ffff > 0x7f80_0000
    }

    /// Numeric equality: the two zeros are equal, and a NaN equals nothing.
    pub open spec fn equals(self, other: Single) -> bool {
        &&& !self.is_nan()
        &&& !other.is_nan()
        &&& self == other || (self.bits | other.bits) & 0x7fff_ffff == 0
    }
}

impl Double {
    /// The number with its sign bit inverted.
    pub open spec fn negated(self) -> Double {
        Double { bits: self.bits ^ 0x8000_0000_0000_0000 }
    }

    /// All exponent bits set and a fraction that is not zero.
    pub open spec fn is_nan(self) -> bool {
        self.bits & 0x7fff_ffff_ffff_ffff > 0x7ff0_0000_0000_0000
    }

    /// Numeric equality: the two zeros are equal, and a NaN equals nothing.
    pub open spec fn equals(self, other: Double) -> bool {
        &&& !self.is_nan()
        &&& !other.is_nan()
        &&& self == other || (self.bits | other.bits) & 0x7fff_ffff_ffff_ffff == 0
    }
}

impl c32 {
    /// Numeric equality, part by part.
    pub open spec fn equals(self, other: c32) -> bool {
        self.re.equals(other.re) && self.im.equals(other.im)
    }
}

impl c64 {
    /// Numeric equality, part by part.
    pub open spec fn equals(self, other: c64) -> bool {
        self.re.equals(other.re) && self.im.equals(other.im)
    }
}

/// Scalars that can be conjugated.
pub trait Conj: Copy {
    /// The complex conjugate.
    spec fn conjugate(self) -> Self;

    /// The complex conjugate.
    fn conj(self) -> (r: Self)
        ensures
            r == self.conjugate(),
    ;
}

impl Conj for Single {
    open spec fn conjugate(self) -> Self {
        self
    }

    fn conj(self) -> (r: Self) {
        self
    }
}

impl Conj for Double {
    open spec fn conjugate(self) -> Self {
        self
    }

    fn conj(self) -> (r: Self) {
        self
    }
}

impl Conj for c32 {
    open spec fn conjugate(self) -> Self {
        c32 { re: self.re, im: self.im.negated() }
    }

    fn conj(self) -> (r: Self) {
        c32 { re: self.re, im: Single { bits: self.im.bits ^ 0x8000_0000 } }
    }
}

impl Conj for c64 {
    open spec fn conjugate(self) -> Self {
        c64 { re: self.re, im: self.im.negated() }
    }

    fn conj(self) -> (r: Self) {
        c64 { re: self.re, im: Double { bits: self.im.bits ^ 0x8000_0000_0000_0000 } }
    }
}

/// Scalars that can be compared with zero and one.
pub trait Number: Conj {
    /// Zero; its parts are positive zeros.
    spec fn zero_value() -> Self;

    /// The number one.
    spec fn one_value() -> Self;

    /// The number is zero; the signs of its parts do not matter.
    spec fn zero_valued(self) -> bool;

    /// The number is one.
    spec fn one_valued(self) -> bool;

    /// Size of a number in bytes.
    spec fn bytes() -> int;

    /// Zero and one are told apart.
    proof fn lemma_zero_and_one()
        ensures
            Self::zero_value().zero_valued() && !Self::zero_value().one_valued(),
            Self::one_value().one_valued() && !Self::one_value().zero_valued(),
    ;

    /// Zero.
    fn zero() -> (r: Self)
        ensures
            r == Self::zero_value(),
    ;

    /// The number one.
    fn one() -> (r: Self)
        ensures
            r == Self::one_value(),
    ;

    /// Numeric comparison with zero.
    fn is_zero(self) -> (r: bool)
        ensures
            r == self.zero_valued(),
    ;

    /// Numeric comparison with one.
    fn is_one(self) -> (r: bool)
        ensures
            r == self.one_valued(),
    ;

    /// Size of a number in bytes.
    fn byte_size() -> (r: usize)
        ensures
            r == Self::bytes(),
            0 < r,
    ;
}

impl Number for Single {
    open spec fn zero_value() -> Self {
        Single { bits: 0 }
    }

    open spec fn one_value() -> Self {
        Single { bits: 0x3f80_0000 }
    }

    open spec fn zero_valued(self) -> bool {
        self.bits & 0x7fff_ffff == 0
    }

    open spec fn one_valued(self) -> bool {
        self.bits == 0x3f80_0000
    }

    open spec fn bytes() -> int {
        4
    }

    proof fn lemma_zero_and_one() {
        law_zero_and_one();
    }

    fn zero() -> (r: Self) {
        Single { bits: 0 }
    }

    fn one() -> (r: Self) {
        Single { bits: 0x3f80_0000 }
    }

    fn is_zero(self) -> (r: bool) {
        self.bits & 0x7fff_ffff == 0
    }

    fn is_one(self) -> (r: bool) {
        self.bits == 0x3f80_0000
    }

    fn byte_size() -> (r: usize) {
        4
    }
}

impl Number for Double {
    open spec fn zero_value() -> Self {
        Double { bits: 0 }
    }

    open spec fn one_value() -> Self {
        Double { bits: 0x3ff0_0000_0000_0000 }
    }

    open spec fn zero_valued(self) -> bool {
        self.bits & 0x7fff_ffff_ffff_ffff == 0
    }

    open spec fn one_valued(self) -> bool {
        self.bits == 0x3ff0_0000_0000_0000
    }

    open spec fn bytes() -> int {
        8
    }

    proof fn lemma_zero_and_one() {
        law_zero_and_one();
    }

    fn zero() -> (r: Self) {
        Double { bits: 0 }
    }

    fn one() -> (r: Self) {
        Double { bits: 0x3ff0_0000_0000_0000 }
    }

    fn is_zero(self) -> (r: bool) {
        self.bits & 0x7fff_ffff_ffff_ffff == 0
    }

    fn is_one(self) -> (r: bool) {
        self.bits == 0x3ff0_0000_0000_0000
    }

    fn byte_size() -> (r: usize) {
        8
    }
}

impl Number for c32 {
    open spec fn zero_value() -> Self {
        c32 { re: Single::zero_value(), im: Single::zero_value() }
    }

    open spec fn one_value() -> Self {
        c32 { re: Single::one_value(), im: Single::zero_value() }
    }

    open spec fn zero_valued(self) -> bool {
        self.re.zero_valued() && self.im.zero_valued()
    }

    open spec fn one_valued(self) -> bool {
        self.re.one_valued() && self.im.zero_valued()
    }

    open spec fn bytes() -> int {
        8
    }

    proof fn lemma_zero_and_one() {
        law_zero_and_one();
    }

    fn zero() -> (r: Self) {
        c32 { re: Single::zero(), im: Single::zero() }
    }

    fn one() -> (r: Self) {
        c32 { re: Single::one(), im: Single::zero() }
    }

    fn is_zero(self) -> (r: bool) {
        self.re.is_zero() && self.im.is_zero()
    }

    fn is_one(self) -> (r: bool) {
        self.re.is_one() && self.im.is_zero()
    }

    fn byte_size() -> (r: usize) {
        8
    }
}

impl Number for c64 {
    open spec fn zero_value() -> Self {
        c64 { re: Double::zero_value(), im: Double::zero_value() }
    }

    open spec fn one_value() -> Self {
        c64 { re: Double::one_value(), im: Double::zero_value() }
    }

    open spec fn zero_valued(self) -> bool {
        self.re.zero_valued() && self.im.zero_valued()
    }

    open spec fn one_valued(self) -> bool {
        self.re.one_valued() && self.im.zero_valued()
    }

    open spec fn bytes() -> int {
        16
    }

    proof fn lemma_zero_and_one() {
        law_zero_and_one();
    }

    fn zero() -> (r: Self) {
        c64 { re: Double::zero(), im: Double::zero() }
    }

    fn one() -> (r: Self) {
        c64 { re: Double::one(), im: Double::zero() }
    }

    fn is_zero(self) -> (r: bool) {
        self.re.is_zero() && self.im.is_zero()
    }

    fn is_one(self) -> (r: bool) {
        self.re.is_one() && self.im.is_zero()
    }

    fn byte_size() -> (r: usize) {
        16
    }
}

/// Conjugating twice gives the number back, in every scalar type of this module.
pub proof fn law_conj_involution(s: Single, d: Double, z: c32, w: c64)
    ensures
        s.conjugate().conjugate() == s,
        d.conjugate().conjugate() == d,
        z.conjugate().conjugate() == z,
        w.conjugate().conjugate() == w,
{
    let a = z.im.bits;
    let b = w.im.bits;
    assert((a ^ 0x8000_0000) ^ 0x8000_0000 == a) by (bit_vector);
    assert((b ^ 0x8000_0000_0000_0000) ^ 0x8000_0000_0000_0000 == b) by (bit_vector);
}

/// A complex number whose real part is a number is numerically equal to its conjugate exactly where
/// its imaginary part is zero. One whose real part is a NaN equals nothing, its conjugate included.
pub proof fn law_conj_fixed(z: c32, w: c64)
    ensures
        z.equals(z.conjugate()) <==> !z.re.is_nan() && z.im.zero_valued(),
        w.equals(w.conjugate()) <==> !w.re.is_nan() && w.im.zero_valued(),
{
    let a = z.im.bits;
    let b = w.im.bits;
    assert(a != a ^ 0x8000_0000) by (bit_vector);
    assert((a ^ 0x8000_0000) & 0x7fff_ffff == a & 0x7fff_ffff) by (bit_vector);
    assert((a | (a ^ 0x8000_0000)) & 0x7fff_ffff == a & 0x7fff_ffff) by (bit_vector);
    assert(b != b ^ 0x8000_0000_0000_0000) by (bit_vector);
    assert((b ^ 0x8000_0000_0000_0000) & 0x7fff_ffff_ffff_ffff == b & 0x7fff_ffff_ffff_ffff)
        by (bit_vector);
    assert((b | (b ^ 0x8000_0000_0000_0000)) & 0x7fff_ffff_ffff_ffff == b & 0x7fff_ffff_ffff_ffff)
        by (bit_vector);
}

/// A real number is its own conjugate, and conjugating keeps zero and one, in every scalar type of
/// this module.
pub proof fn law_conj_real(s: Single, d: Double, z: c32, w: c64)
    ensures
        s.conjugate() == s,
        d.conjugate() == d,
        z.conjugate().zero_valued() == z.zero_valued(),
        z.conjugate().one_valued() == z.one_valued(),
        w.conjugate().zero_valued() == w.zero_valued(),
        w.conjugate().one_valued() == w.one_valued(),
{
    let a = z.im.bits;
    let b = w.im.bits;
    assert((a ^ 0x8000_0000) & 0x7fff_ffff == a & 0x7fff_ffff) by (bit_vector);
    assert((b ^ 0x8000_0000_0000_0000) & 0x7fff_ffff_ffff_ffff == b & 0x7fff_ffff_ffff_ffff)
        by (bit_vector);
}

/// Zero and one are told apart, in every scalar type of this module.
pub proof fn law_zero_and_one()
    ensures
        Single::zero_value().zero_valued() && !Single::zero_value().one_valued(),
        Single::one_value().one_valued() && !Single::one_value().zero_valued(),
        Double::zero_value().zero_valued() && !Double::zero_value().one_valued(),
        Double::one_value().one_valued() && !Double::one_value().zero_valued(),
        c32::zero_value().zero_valued() && !c32::zero_value().one_valued(),
        c32::one_value().one_valued() && !c32::one_value().zero_valued(),
        c64::zero_value().zero_valued() && !c64::zero_value().one_valued(),
        c64::one_value().one_valued() && !c64::one_value().zero_valued(),
{
    assert(0u32 & 0x7fff_ffff == 0) by (bit_vector);
    assert(0x3f80_0000u32 & 0x7fff_ffff != 0) by (bit_vector);
    assert(0u64 & 0x7fff_ffff_ffff_ffff == 0) by (bit_vector);
    assert(0x3ff0_0000_0000_0000u64 & 0x7fff_ffff_ffff_ffff != 0) by (bit_vector);
}

} // verus!
