//! What the bit patterns of scalars stand for.
//!
//! A finite number is a sign and a whole multiple of the smallest positive number of its format. The
//! laws of this module say, in these terms, which numbers count as zero, as one and as equal, what
//! conjugation does, and how a destination is scaled.

use crate::gemm::alpha_status;
use crate::half_precision::half_alpha_status;
use crate::kernel::AlphaStatus;
use crate::scalar::c32;
use crate::scalar::c64;
use crate::scalar::Conj;
use crate::scalar::Double;
use crate::scalar::Half;
use crate::scalar::Number;
use crate::scalar::Single;
use vstd::prelude::*;

verus! {

/// How many times the smallest positive number a number with this exponent and this fraction is,
/// where fractions are below `scale`.
pub open spec fn multiple(exponent: int, fraction: int, scale: int) -> int {
    if exponent == 0 {
        fraction
    } else {
        (scale + fraction) * vstd::arithmetic::power2::pow2((exponent - 1) as nat)
    }
}

/// A larger exponent makes a larger number.
proof fn lemma_multiple_grows(e: int, f: int, e2: int, f2: int, scale: int)
    requires
        0 <= e < e2,
        0 <= f < scale,
        0 <= f2 < scale,
    ensures
        multiple(e, f, scale) < multiple(e2, f2, scale),
{
    let top = vstd::arithmetic::power2::pow2(e as nat);
    let next = vstd::arithmetic::power2::pow2((e2 - 1) as nat);
    vstd::arithmetic::power2::lemma_pow2_pos(e as nat);
    if e < e2 - 1 {
        vstd::arithmetic::power2::lemma_pow2_strictly_increases(e as nat, (e2 - 1) as nat);
    }
    assert(multiple(e, f, scale) < scale * top) by {
        if e == 0 {
            vstd::arithmetic::power2::lemma2_to64();
            assert(scale * top == scale) by (nonlinear_arith)
                requires
                    top == 1,
            ;
        } else {
            let half = vstd::arithmetic::power2::pow2((e - 1) as nat);
            vstd::arithmetic::power2::lemma_pow2_pos((e - 1) as nat);
            vstd::arithmetic::power2::lemma_pow2_unfold(e as nat);
            assert((scale + f) * half < scale * top) by (nonlinear_arith)
                requires
                    f < scale,
                    0 < half,
                    top == 2 * half,
            ;
        }
    }
    assert(scale * top <= (scale + f2) * next) by (nonlinear_arith)
        requires
            0 <= f2,
            0 < scale,
            0 < top <= next,
    ;
}

/// Different exponents or fractions make different numbers.
proof fn lemma_multiple_unique(e: int, f: int, e2: int, f2: int, scale: int)
    requires
        0 <= e,
        0 <= e2,
        0 <= f < scale,
        0 <= f2 < scale,
    ensures
        multiple(e, f, scale) == multiple(e2, f2, scale) <==> e == e2 && f == f2,
        multiple(e, f, scale) >= 0,
        multiple(e, f, scale) == 0 <==> e == 0 && f == 0,
{
    if e < e2 {
        lemma_multiple_grows(e, f, e2, f2, scale);
    } else if e2 < e {
        lemma_multiple_grows(e2, f2, e, f, scale);
    } else if e > 0 {
        let h = vstd::arithmetic::power2::pow2((e - 1) as nat);
        vstd::arithmetic::power2::lemma_pow2_pos((e - 1) as nat);
        assert((scale + f) * h == (scale + f2) * h ==> f == f2) by (nonlinear_arith)
            requires
                0 < h,
        ;
    }
    if e > 0 {
        let h = vstd::arithmetic::power2::pow2((e - 1) as nat);
        vstd::arithmetic::power2::lemma_pow2_pos((e - 1) as nat);
        assert((scale + f) * h > 0) by (nonlinear_arith)
            requires
                0 < h,
                0 < scale + f,
        ;
    }
}

/// The number one, where the fraction has `p` bits and exponents are biased by `bias`.
proof fn lemma_multiple_one(p: nat, bias: int)
    requires
        1 <= bias,
    ensures
        multiple(bias, 0, vstd::arithmetic::power2::pow2(p) as int) == vstd::arithmetic::power2::pow2((p + bias - 1) as nat),
{
    vstd::arithmetic::power2::lemma_pow2_adds(p, (bias - 1) as nat);
}

impl Half {
    /// The sign: zero for plus, one for minus.
    pub open spec fn sign(self) -> int {
        self.bits as int / 0x8000
    }

    /// The biased exponent.
    pub open spec fn exponent(self) -> int {
        self.bits as int / 0x400 % 32
    }

    /// The fraction, as a whole number.
    pub open spec fn fraction(self) -> int {
        self.bits as int % 0x400
    }

    /// The number is finite.
    pub open spec fn finite(self) -> bool {
        self.exponent() != 31
    }

    /// The number is infinite.
    pub open spec fn infinite(self) -> bool {
        self.exponent() == 31 && self.fraction() == 0
    }

    /// How many times the smallest positive number a finite number is.
    pub open spec fn units(self) -> int {
        if self.sign() == 0 {
            multiple(self.exponent(), self.fraction(), 0x400)
        } else {
            -multiple(self.exponent(), self.fraction(), 0x400)
        }
    }

    /// The parts of a number make it up.
    proof fn lemma_parts(self)
        ensures
            self.bits == self.sign() * 0x8000 + self.exponent() * 0x400 + self.fraction(),
            0 <= self.sign() <= 1,
            0 <= self.exponent() <= 31,
            0 <= self.fraction() < 0x400,
            (self.bits & 0x7fff) as int == self.exponent() * 0x400 + self.fraction(),
            self.units() == 0 <==> self.exponent() == 0 && self.fraction() == 0,
    {
        let b = self.bits;
        assert(b & 0x7fff == b % 0x8000) by (bit_vector);
        lemma_multiple_unique(self.exponent(), self.fraction(), 0, 0, 0x400);
    }
}

/// What half precision numbers stand for: which bit patterns are no numbers, which numbers are equal, and
/// which are zero and one.
pub proof fn law_half_values(x: Half, y: Half)
    ensures
        x.is_nan() <==> !x.finite() && !x.infinite(),
        x.equals(y) <==> {
            ||| x.finite() && y.finite() && x.units() == y.units()
            ||| x.infinite() && y.infinite() && x.sign() == y.sign()
        },
        Half::zero_value().sign() == 0,
        Half::zero_value().finite() && Half::zero_value().units() == 0,
        Half::one_value().finite() && Half::one_value().units() == vstd::arithmetic::power2::pow2(24),
{
    let a = x.bits;
    let c = y.bits;
    x.lemma_parts();
    y.lemma_parts();
    Half::zero_value().lemma_parts();
    Half::one_value().lemma_parts();
    assert((a | c) & 0x7fff == 0 <==> a & 0x7fff == 0 && c & 0x7fff == 0) by (bit_vector);
    lemma_multiple_unique(x.exponent(), x.fraction(), y.exponent(), y.fraction(), 0x400);
    lemma_multiple_unique(y.exponent(), y.fraction(), 0, 0, 0x400);
    lemma_multiple_unique(x.exponent(), x.fraction(), 15, 0, 0x400);
    lemma_multiple_one(10, 15);
    assert(vstd::arithmetic::power2::pow2(10) == 0x400) by {
        vstd::arithmetic::power2::lemma2_to64();
        vstd::arithmetic::power2::lemma2_to64_rest();
    }
    vstd::arithmetic::power2::lemma_pow2_pos(24);
}

impl Single {
    /// The sign: zero for plus, one for minus.
    pub open spec fn sign(self) -> int {
        self.bits as int / 0x8000_0000
    }

    /// The biased exponent.
    pub open spec fn exponent(self) -> int {
        self.bits as int / 0x80_0000 % 256
    }

    /// The fraction, as a whole number.
    pub open spec fn fraction(self) -> int {
        self.bits as int % 0x80_0000
    }

    /// The number is finite.
    pub open spec fn finite(self) -> bool {
        self.exponent() != 255
    }

    /// The number is infinite.
    pub open spec fn infinite(self) -> bool {
        self.exponent() == 255 && self.fraction() == 0
    }

    /// How many times the smallest positive number a finite number is.
    pub open spec fn units(self) -> int {
        if self.sign() == 0 {
            multiple(self.exponent(), self.fraction(), 0x80_0000)
        } else {
            -multiple(self.exponent(), self.fraction(), 0x80_0000)
        }
    }

    /// The parts of a number make it up.
    proof fn lemma_parts(self)
        ensures
            self.bits == self.sign() * 0x8000_0000 + self.exponent() * 0x80_0000 + self.fraction(),
            0 <= self.sign() <= 1,
            0 <= self.exponent() <= 255,
            0 <= self.fraction() < 0x80_0000,
            (self.bits & 0x7fff_ffff) as int == self.exponent() * 0x80_0000 + self.fraction(),
            self.units() == 0 <==> self.exponent() == 0 && self.fraction() == 0,
    {
        let b = self.bits;
        assert(b & 0x7fff_ffff == b % 0x8000_0000) by (bit_vector);
        lemma_multiple_unique(self.exponent(), self.fraction(), 0, 0, 0x80_0000);
    }
}

/// What single precision numbers stand for: which bit patterns are no numbers, which numbers are equal, and
/// which are zero and one. Changing the sign changes nothing but the sign.
pub proof fn law_single_values(x: Single, y: Single)
    ensures
        x.is_nan() <==> !x.finite() && !x.infinite(),
        x.equals(y) <==> {
            ||| x.finite() && y.finite() && x.units() == y.units()
            ||| x.infinite() && y.infinite() && x.sign() == y.sign()
        },
        x.zero_valued() <==> x.finite() && x.units() == 0,
        x.one_valued() <==> x.finite() && x.units() == vstd::arithmetic::power2::pow2(149),
        Single::zero_value().sign() == 0,
        Single::zero_value().finite() && Single::zero_value().units() == 0,
        Single::one_value().finite() && Single::one_value().units() == vstd::arithmetic::power2::pow2(149),
        x.negated().sign() == 1 - x.sign(),
        x.negated().exponent() == x.exponent(),
        x.negated().fraction() == x.fraction(),
        x.negated().units() == -x.units(),
{
    let a = x.bits;
    let c = y.bits;
    x.lemma_parts();
    y.lemma_parts();
    Single::zero_value().lemma_parts();
    Single::one_value().lemma_parts();
    assert((a | c) & 0x7fff_ffff == 0 <==> a & 0x7fff_ffff == 0 && c & 0x7fff_ffff == 0) by (bit_vector);
    lemma_multiple_unique(x.exponent(), x.fraction(), y.exponent(), y.fraction(), 0x80_0000);
    lemma_multiple_unique(y.exponent(), y.fraction(), 0, 0, 0x80_0000);
    lemma_multiple_unique(x.exponent(), x.fraction(), 127, 0, 0x80_0000);
    lemma_multiple_one(23, 127);
    assert(vstd::arithmetic::power2::pow2(23) == 0x80_0000) by {
        vstd::arithmetic::power2::lemma2_to64();
        vstd::arithmetic::power2::lemma2_to64_rest();
    }
    vstd::arithmetic::power2::lemma_pow2_pos(149);
    let b = x.bits;
    assert(b < 0x8000_0000 ==> b ^ 0x8000_0000 == b + 0x8000_0000) by (bit_vector);
    assert(b >= 0x8000_0000 ==> b ^ 0x8000_0000 == b - 0x8000_0000) by (bit_vector);
    x.negated().lemma_parts();
}

impl Double {
    /// The sign: zero for plus, one for minus.
    pub open spec fn sign(self) -> int {
        self.bits as int / 0x8000_0000_0000_0000
    }

    /// The biased exponent.
    pub open spec fn exponent(self) -> int {
        self.bits as int / 0x10_0000_0000_0000 % 2048
    }

    /// The fraction, as a whole number.
    pub open spec fn fraction(self) -> int {
        self.bits as int % 0x10_0000_0000_0000
    }

    /// The number is finite.
    pub open spec fn finite(self) -> bool {
        self.exponent() != 2047
    }

    /// The number is infinite.
    pub open spec fn infinite(self) -> bool {
        self.exponent() == 2047 && self.fraction() == 0
    }

    /// How many times the smallest positive number a finite number is.
    pub open spec fn units(self) -> int {
        if self.sign() == 0 {
            multiple(self.exponent(), self.fraction(), 0x10_0000_0000_0000)
        } else {
            -multiple(self.exponent(), self.fraction(), 0x10_0000_0000_0000)
        }
    }

    /// The parts of a number make it up.
    proof fn lemma_parts(self)
        ensures
            self.bits == self.sign() * 0x8000_0000_0000_0000 + self.exponent() * 0x10_0000_0000_0000 + self.fraction(),
            0 <= self.sign() <= 1,
            0 <= self.exponent() <= 2047,
            0 <= self.fraction() < 0x10_0000_0000_0000,
            (self.bits & 0x7fff_ffff_ffff_ffff) as int == self.exponent() * 0x10_0000_0000_0000 + self.fraction(),
            self.units() == 0 <==> self.exponent() == 0 && self.fraction() == 0,
    {
        let b = self.bits;
        assert(b & 0x7fff_ffff_ffff_ffff == b % 0x8000_0000_0000_0000) by (bit_vector);
        lemma_multiple_unique(self.exponent(), self.fraction(), 0, 0, 0x10_0000_0000_0000);
    }
}

/// What double precision numbers stand for: which bit patterns are no numbers, which numbers are equal, and
/// which are zero and one. Changing the sign changes nothing but the sign.
pub proof fn law_double_values(x: Double, y: Double)
    ensures
        x.is_nan() <==> !x.finite() && !x.infinite(),
        x.equals(y) <==> {
            ||| x.finite() && y.finite() && x.units() == y.units()
            ||| x.infinite() && y.infinite() && x.sign() == y.sign()
        },
        x.zero_valued() <==> x.finite() && x.units() == 0,
        x.one_valued() <==> x.finite() && x.units() == vstd::arithmetic::power2::pow2(1074),
        Double::zero_value().sign() == 0,
        Double::zero_value().finite() && Double::zero_value().units() == 0,
        Double::one_value().finite() && Double::one_value().units() == vstd::arithmetic::power2::pow2(1074),
        x.negated().sign() == 1 - x.sign(),
        x.negated().exponent() == x.exponent(),
        x.negated().fraction() == x.fraction(),
        x.negated().units() == -x.units(),
{
    let a = x.bits;
    let c = y.bits;
    x.lemma_parts();
    y.lemma_parts();
    Double::zero_value().lemma_parts();
    Double::one_value().lemma_parts();
    assert((a | c) & 0x7fff_ffff_ffff_ffff == 0 <==> a & 0x7fff_ffff_ffff_ffff == 0 && c & 0x7fff_ffff_ffff_ffff == 0) by (bit_vector);
    lemma_multiple_unique(x.exponent(), x.fraction(), y.exponent(), y.fraction(), 0x10_0000_0000_0000);
    lemma_multiple_unique(y.exponent(), y.fraction(), 0, 0, 0x10_0000_0000_0000);
    lemma_multiple_unique(x.exponent(), x.fraction(), 1023, 0, 0x10_0000_0000_0000);
    lemma_multiple_one(52, 1023);
    assert(vstd::arithmetic::power2::pow2(52) == 0x10_0000_0000_0000) by {
        vstd::arithmetic::power2::lemma2_to64();
        vstd::arithmetic::power2::lemma2_to64_rest();
    }
    vstd::arithmetic::power2::lemma_pow2_pos(1074);
    let b = x.bits;
    assert(b < 0x8000_0000_0000_0000 ==> b ^ 0x8000_0000_0000_0000 == b + 0x8000_0000_0000_0000) by (bit_vector);
    assert(b >= 0x8000_0000_0000_0000 ==> b ^ 0x8000_0000_0000_0000 == b - 0x8000_0000_0000_0000) by (bit_vector);
    x.negated().lemma_parts();
}

/// A complex number is zero or one exactly where its parts are, and numbers are equal exactly where
/// their parts are.
pub proof fn law_complex_values(z: c32, z2: c32, w: c64, w2: c64)
    ensures
        z.zero_valued() <==> z.re.finite() && z.re.units() == 0 && z.im.finite() && z.im.units()
            == 0,
        z.one_valued() <==> z.re.finite() && z.re.units() == vstd::arithmetic::power2::pow2(149) && z.im.finite()
            && z.im.units() == 0,
        z.equals(z2) <==> z.re.equals(z2.re) && z.im.equals(z2.im),
        c32::zero_value().re == Single::zero_value() && c32::zero_value().im
            == Single::zero_value(),
        c32::one_value().re == Single::one_value() && c32::one_value().im == Single::zero_value(),
        w.zero_valued() <==> w.re.finite() && w.re.units() == 0 && w.im.finite() && w.im.units()
            == 0,
        w.one_valued() <==> w.re.finite() && w.re.units() == vstd::arithmetic::power2::pow2(1074) && w.im.finite()
            && w.im.units() == 0,
        w.equals(w2) <==> w.re.equals(w2.re) && w.im.equals(w2.im),
        c64::zero_value().re == Double::zero_value() && c64::zero_value().im
            == Double::zero_value(),
        c64::one_value().re == Double::one_value() && c64::one_value().im == Double::zero_value(),
{
    law_single_values(z.re, z2.re);
    law_single_values(z.im, z2.im);
    law_double_values(w.re, w2.re);
    law_double_values(w.im, w2.im);
}

/// Zero and one are what counts as zero and as one, and nothing else does.
pub proof fn law_zero_and_one_only(s: Single, d: Double, z: c32, w: c64)
    ensures
        s.zero_valued() <==> s.equals(Single::zero_value()),
        s.one_valued() <==> s.equals(Single::one_value()),
        d.zero_valued() <==> d.equals(Double::zero_value()),
        d.one_valued() <==> d.equals(Double::one_value()),
        z.zero_valued() <==> z.equals(c32::zero_value()),
        z.one_valued() <==> z.equals(c32::one_value()),
        w.zero_valued() <==> w.equals(c64::zero_value()),
        w.one_valued() <==> w.equals(c64::one_value()),
{
    law_complex_values(z, z, w, w);
    law_single_values(s, Single::zero_value());
    law_single_values(s, Single::one_value());
    law_double_values(d, Double::zero_value());
    law_double_values(d, Double::one_value());
    law_single_values(z.re, Single::zero_value());
    law_single_values(z.re, Single::one_value());
    law_single_values(z.im, Single::zero_value());
    law_double_values(w.re, Double::zero_value());
    law_double_values(w.re, Double::one_value());
    law_double_values(w.im, Double::zero_value());
}

/// The conjugate of a complex number has the same real part, bit for bit, and the imaginary part with
/// the other sign and everything else the same. A real number is its own conjugate.
pub proof fn law_conjugate_parts(s: Single, d: Double, z: c32, w: c64)
    ensures
        s.conjugate() == s,
        d.conjugate() == d,
        z.conjugate().re == z.re,
        z.conjugate().im.sign() == 1 - z.im.sign(),
        z.conjugate().im.exponent() == z.im.exponent(),
        z.conjugate().im.fraction() == z.im.fraction(),
        z.conjugate().im.units() == -z.im.units(),
        w.conjugate().re == w.re,
        w.conjugate().im.sign() == 1 - w.im.sign(),
        w.conjugate().im.exponent() == w.im.exponent(),
        w.conjugate().im.fraction() == w.im.fraction(),
        w.conjugate().im.units() == -w.im.units(),
{
    law_single_values(z.im, z.im);
    law_double_values(w.im, w.im);
}

/// The exact product of two complex numbers with these parts.
pub open spec fn exact_product(a: (int, int), b: (int, int)) -> (int, int) {
    (a.0 * b.0 - a.1 * b.1, a.0 * b.1 + a.1 * b.0)
}

/// Conjugation goes through exact products and sums: the parts of a product of conjugates are those of
/// the product, but for the sign of the imaginary one, and so are those of a sum.
pub proof fn law_conjugate_arithmetic(a: c32, b: c32, x: c64, y: c64)
    ensures
        exact_product(
            (a.conjugate().re.units(), a.conjugate().im.units()),
            (b.conjugate().re.units(), b.conjugate().im.units()),
        ) == ({
            let product = exact_product(
                (a.re.units(), a.im.units()),
                (b.re.units(), b.im.units()),
            );
            (product.0, -product.1)
        }),
        a.conjugate().re.units() + b.conjugate().re.units() == a.re.units() + b.re.units(),
        a.conjugate().im.units() + b.conjugate().im.units() == -(a.im.units() + b.im.units()),
        exact_product(
            (x.conjugate().re.units(), x.conjugate().im.units()),
            (y.conjugate().re.units(), y.conjugate().im.units()),
        ) == ({
            let product = exact_product(
                (x.re.units(), x.im.units()),
                (y.re.units(), y.im.units()),
            );
            (product.0, -product.1)
        }),
        x.conjugate().re.units() + y.conjugate().re.units() == x.re.units() + y.re.units(),
        x.conjugate().im.units() + y.conjugate().im.units() == -(x.im.units() + y.im.units()),
{
    law_conjugate_parts(a.re, x.re, a, x);
    law_conjugate_parts(b.re, y.re, b, y);
    lemma_conjugate_product(a.re.units(), a.im.units(), b.re.units(), b.im.units());
    lemma_conjugate_product(x.re.units(), x.im.units(), y.re.units(), y.im.units());
}

proof fn lemma_conjugate_product(p: int, q: int, r: int, s: int)
    ensures
        exact_product((p, -q), (r, -s)) == (p * r - q * s, -(p * s + q * r)),
{
    assert((-q) * (-s) == q * s) by (nonlinear_arith);
    assert(p * (-s) == -(p * s)) by (nonlinear_arith);
    assert((-q) * r == -(q * r)) by (nonlinear_arith);
}

/// A destination counts as scaled by zero exactly where the factor is zero, and as left alone exactly
/// where the factor is one.
pub proof fn law_alpha_statuses(h: Half, s: Single, d: Double, z: c32, w: c64)
    ensures
        crate::half_precision::half_status_of(h) is Zero <==> h.finite() && h.units() == 0,
        crate::half_precision::half_status_of(h) is One <==> h.finite() && h.units() == vstd::arithmetic::power2::pow2(24),
        crate::gemm::status_of(s) is Zero <==> s.finite() && s.units() == 0,
        crate::gemm::status_of(s) is One <==> s.finite() && s.units() == vstd::arithmetic::power2::pow2(149),
        crate::gemm::status_of(d) is Zero <==> d.finite() && d.units() == 0,
        crate::gemm::status_of(d) is One <==> d.finite() && d.units() == vstd::arithmetic::power2::pow2(1074),
        crate::gemm::status_of(z) is Zero <==> z.equals(c32::zero_value()),
        crate::gemm::status_of(z) is One <==> z.equals(c32::one_value()),
        crate::gemm::status_of(w) is Zero <==> w.equals(c64::zero_value()),
        crate::gemm::status_of(w) is One <==> w.equals(c64::one_value()),
{
    law_half_values(h, Half::zero_value());
    law_half_values(h, Half::one_value());
    law_single_values(s, s);
    law_double_values(d, d);
    law_zero_and_one_only(s, d, z, w);
    law_complex_values(z, z, w, w);
    vstd::arithmetic::power2::lemma_pow2_pos(24);
    vstd::arithmetic::power2::lemma_pow2_pos(149);
    vstd::arithmetic::power2::lemma_pow2_pos(1074);
}

/// What the operations on half precision numbers return.
pub proof fn law_half_calls(x: Half, y: Half)
    ensures
        forall|r: bool| #[trigger]
            call_ensures(Half::eq_value, (x, y), r) ==> (r <==> {
                ||| x.finite() && y.finite() && x.units() == y.units()
                ||| x.infinite() && y.infinite() && x.sign() == y.sign()
            }),
        forall|r: Half| #[trigger]
            call_ensures(Half::zero, (), r) ==> r.finite() && r.units() == 0 && r.sign() == 0,
        forall|r: Half| #[trigger]
            call_ensures(Half::one, (), r) ==> r.finite() && r.units() == vstd::arithmetic::power2::pow2(24),
        forall|r: AlphaStatus| #[trigger]
            call_ensures(half_alpha_status, (x,), r) ==> {
                &&& r is Zero <==> x.finite() && x.units() == 0
                &&& r is One <==> x.finite() && x.units() == vstd::arithmetic::power2::pow2(24)
            },
{
    law_half_values(x, y);
    law_alpha_statuses(
        x,
        Single::zero_value(),
        Double::zero_value(),
        c32::zero_value(),
        c64::zero_value(),
    );
}

/// What the operations on single precision numbers return. The sign is the highest of the bits that a
/// number takes.
pub proof fn law_single_calls(x: Single)
    ensures
        forall|r: bool| #[trigger]
            call_ensures(<Single as Number>::is_zero, (x,), r) ==> (r <==> x.finite() && x.units()
                == 0),
        forall|r: bool| #[trigger]
            call_ensures(<Single as Number>::is_one, (x,), r) ==> (r <==> x.finite() && x.units()
                == vstd::arithmetic::power2::pow2(149)),
        forall|r: Single| #[trigger]
            call_ensures(<Single as Number>::zero, (), r) ==> r.finite() && r.units() == 0 && r.sign()
                == 0,
        forall|r: Single| #[trigger]
            call_ensures(<Single as Number>::one, (), r) ==> r.finite() && r.units()
                == vstd::arithmetic::power2::pow2(149),
        forall|r: Single| #[trigger] call_ensures(<Single as Conj>::conj, (x,), r) ==> r == x,
        forall|r: usize| #[trigger]
            call_ensures(<Single as Number>::byte_size, (), r) ==> vstd::arithmetic::power2::pow2(
                (8 * r - 1) as nat,
            ) == 0x8000_0000,
        forall|r: AlphaStatus| #[trigger]
            call_ensures(alpha_status::<Single>, (x,), r) ==> {
                &&& r is Zero <==> x.finite() && x.units() == 0
                &&& r is One <==> x.finite() && x.units() == vstd::arithmetic::power2::pow2(149)
            },
{
    law_single_values(x, x);
    law_alpha_statuses(
        Half::zero_value(),
        x,
        Double::zero_value(),
        c32::zero_value(),
        c64::zero_value(),
    );
    vstd::arithmetic::power2::lemma2_to64();
    vstd::arithmetic::power2::lemma2_to64_rest();
}

/// What the operations on double precision numbers return. The sign is the highest of the bits that a
/// number takes.
pub proof fn law_double_calls(x: Double)
    ensures
        forall|r: bool| #[trigger]
            call_ensures(<Double as Number>::is_zero, (x,), r) ==> (r <==> x.finite() && x.units()
                == 0),
        forall|r: bool| #[trigger]
            call_ensures(<Double as Number>::is_one, (x,), r) ==> (r <==> x.finite() && x.units()
                == vstd::arithmetic::power2::pow2(1074)),
        forall|r: Double| #[trigger]
            call_ensures(<Double as Number>::zero, (), r) ==> r.finite() && r.units() == 0 && r.sign()
                == 0,
        forall|r: Double| #[trigger]
            call_ensures(<Double as Number>::one, (), r) ==> r.finite() && r.units()
                == vstd::arithmetic::power2::pow2(1074),
        forall|r: Double| #[trigger] call_ensures(<Double as Conj>::conj, (x,), r) ==> r == x,
        forall|r: usize| #[trigger]
            call_ensures(<Double as Number>::byte_size, (), r) ==> vstd::arithmetic::power2::pow2(
                (8 * r - 1) as nat,
            ) == 0x8000_0000_0000_0000,
        forall|r: AlphaStatus| #[trigger]
            call_ensures(alpha_status::<Double>, (x,), r) ==> {
                &&& r is Zero <==> x.finite() && x.units() == 0
                &&& r is One <==> x.finite() && x.units() == vstd::arithmetic::power2::pow2(1074)
            },
{
    law_double_values(x, x);
    law_alpha_statuses(
        Half::zero_value(),
        Single::zero_value(),
        x,
        c32::zero_value(),
        c64::zero_value(),
    );
    vstd::arithmetic::power2::lemma2_to64();
    vstd::arithmetic::power2::lemma2_to64_rest();
}

/// What the operations on complex numbers in single precision return. The conjugate has the same real
/// part, bit for bit, and the imaginary part with the other sign and everything else the same.
pub proof fn law_complex_single_calls(z: c32)
    ensures
        forall|r: c32| #[trigger]
            call_ensures(<c32 as Conj>::conj, (z,), r) ==> {
                &&& r.re == z.re
                &&& r.im.sign() == 1 - z.im.sign()
                &&& r.im.exponent() == z.im.exponent()
                &&& r.im.fraction() == z.im.fraction()
                &&& r.im.units() == -z.im.units()
            },
        forall|r: bool| #[trigger]
            call_ensures(<c32 as Number>::is_zero, (z,), r) ==> (r <==> z.re.finite()
                && z.re.units() == 0 && z.im.finite() && z.im.units() == 0),
        forall|r: bool| #[trigger]
            call_ensures(<c32 as Number>::is_one, (z,), r) ==> (r <==> z.re.finite()
                && z.re.units() == vstd::arithmetic::power2::pow2(149) && z.im.finite()
                && z.im.units() == 0),
        forall|r: c32| #[trigger]
            call_ensures(<c32 as Number>::zero, (), r) ==> r.re == Single::zero_value() && r.im
                == Single::zero_value(),
        forall|r: c32| #[trigger]
            call_ensures(<c32 as Number>::one, (), r) ==> r.re == Single::one_value() && r.im
                == Single::zero_value(),
        forall|r: usize, s: usize| #[trigger]
            call_ensures(<c32 as Number>::byte_size, (), r) && #[trigger] call_ensures(
                <Single as Number>::byte_size,
                (),
                s,
            ) ==> r == 2 * s,
        forall|r: AlphaStatus| #[trigger]
            call_ensures(alpha_status::<c32>, (z,), r) ==> {
                &&& r is Zero <==> z.equals(c32::zero_value())
                &&& r is One <==> z.equals(c32::one_value())
            },
{
    law_complex_values(z, z, c64::zero_value(), c64::zero_value());
    law_conjugate_parts(Single::zero_value(), Double::zero_value(), z, c64::zero_value());
    law_alpha_statuses(
        Half::zero_value(),
        Single::zero_value(),
        Double::zero_value(),
        z,
        c64::zero_value(),
    );
}

/// What the operations on complex numbers in double precision return. The conjugate has the same real
/// part, bit for bit, and the imaginary part with the other sign and everything else the same.
pub proof fn law_complex_double_calls(z: c64)
    ensures
        forall|r: c64| #[trigger]
            call_ensures(<c64 as Conj>::conj, (z,), r) ==> {
                &&& r.re == z.re
                &&& r.im.sign() == 1 - z.im.sign()
                &&& r.im.exponent() == z.im.exponent()
                &&& r.im.fraction() == z.im.fraction()
                &&& r.im.units() == -z.im.units()
            },
        forall|r: bool| #[trigger]
            call_ensures(<c64 as Number>::is_zero, (z,), r) ==> (r <==> z.re.finite()
                && z.re.units() == 0 && z.im.finite() && z.im.units() == 0),
        forall|r: bool| #[trigger]
            call_ensures(<c64 as Number>::is_one, (z,), r) ==> (r <==> z.re.finite()
                && z.re.units() == vstd::arithmetic::power2::pow2(1074) && z.im.finite()
                && z.im.units() == 0),
        forall|r: c64| #[trigger]
            call_ensures(<c64 as Number>::zero, (), r) ==> r.re == Double::zero_value() && r.im
                == Double::zero_value(),
        forall|r: c64| #[trigger]
            call_ensures(<c64 as Number>::one, (), r) ==> r.re == Double::one_value() && r.im
                == Double::zero_value(),
        forall|r: usize, s: usize| #[trigger]
            call_ensures(<c64 as Number>::byte_size, (), r) && #[trigger] call_ensures(
                <Double as Number>::byte_size,
                (),
                s,
            ) ==> r == 2 * s,
        forall|r: AlphaStatus| #[trigger]
            call_ensures(alpha_status::<c64>, (z,), r) ==> {
                &&& r is Zero <==> z.equals(c64::zero_value())
                &&& r is One <==> z.equals(c64::one_value())
            },
{
    law_complex_values(c32::zero_value(), c32::zero_value(), z, z);
    law_conjugate_parts(Single::zero_value(), Double::zero_value(), c32::zero_value(), z);
    law_alpha_statuses(
        Half::zero_value(),
        Single::zero_value(),
        Double::zero_value(),
        c32::zero_value(),
        z,
    );
}

} // verus!
