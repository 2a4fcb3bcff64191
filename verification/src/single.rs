//! Single-precision numbers as their IEEE 754 bit patterns.
//!
//! The library decides on measured and configured quantities: what it needs of a number is whether
//! it is finite and how it compares with another. Both are integer facts about the bit pattern.
//! `lemma_key_order_is_numeric` ties the comparison to the numbers that the patterns stand for. The
//! one number that is computed from another is an angle on the circle, in `doa::circle`.

use vstd::arithmetic::power2::{lemma_pow2_adds, lemma_pow2_pos, lemma_pow2_strictly_increases, pow2};
use vstd::prelude::*;

verus! {

/// The bit pattern of a single-precision number.
#[derive(Clone, Copy, Debug, Default, PartialEq, Eq, Structural)]
pub struct Single {
    pub bits: u32,
}

pub const SIGN_BIT: u32 = 0x8000_0000;

pub const INFINITY_BITS: u32 = 0x7F80_0000;

/// The number with the given pattern.
#[verifier::allow_in_spec]
pub fn single(bits: u32) -> Single
    returns
        (Single { bits }),
{
    Single { bits }
}

impl Single {
    /// The pattern without its sign.
    pub open spec fn magnitude(self) -> int {
        self.bits as int % SIGN_BIT as int
    }

    pub open spec fn negative(self) -> bool {
        self.bits >= SIGN_BIT
    }

    pub open spec fn finite(self) -> bool {
        self.magnitude() < INFINITY_BITS
    }

    pub open spec fn nan(self) -> bool {
        self.magnitude() > INFINITY_BITS
    }

    /// The position of the number in the order of all numbers; both zeros stand at 0.
    pub open spec fn key(self) -> int {
        if self.negative() {
            -self.magnitude()
        } else {
            self.magnitude()
        }
    }

    /// `self <= other`, which is false as soon as one of them is no number.
    pub open spec fn at_most(self, other: Single) -> bool {
        !self.nan() && !other.nan() && self.key() <= other.key()
    }

    /// `self < other`, which is false as soon as one of them is no number.
    pub open spec fn below(self, other: Single) -> bool {
        !self.nan() && !other.nan() && self.key() < other.key()
    }

    /// `self` lies between `low` and `high`, bounds included.
    pub open spec fn within(self, low: Single, high: Single) -> bool {
        low.at_most(self) && self.at_most(high)
    }

    fn magnitude_bits(self) -> (m: u32)
        ensures
            m == self.magnitude(),
    {
        self.bits % SIGN_BIT
    }

    fn order_key(self) -> (k: i64)
        ensures
            k == self.key(),
    {
        let m: i64 = self.magnitude_bits() as i64;
        if self.bits >= SIGN_BIT {
            -m
        } else {
            m
        }
    }

    pub fn is_finite(self) -> (b: bool)
        ensures
            b == self.finite(),
    {
        self.magnitude_bits() < INFINITY_BITS
    }

    pub fn is_nan(self) -> (b: bool)
        ensures
            b == self.nan(),
    {
        self.magnitude_bits() > INFINITY_BITS
    }

    pub fn le(self, other: Single) -> (b: bool)
        ensures
            b == self.at_most(other),
    {
        !self.is_nan() && !other.is_nan() && self.order_key() <= other.order_key()
    }

    pub fn lt(self, other: Single) -> (b: bool)
        ensures
            b == self.below(other),
    {
        !self.is_nan() && !other.is_nan() && self.order_key() < other.order_key()
    }

    pub fn between(self, low: Single, high: Single) -> (b: bool)
        ensures
            b == self.within(low, high),
    {
        low.le(self) && self.le(high)
    }

    /// `self` where it is finite, `fallback` where it is not.
    pub open spec fn spec_finite_or(self, fallback: Single) -> Single {
        if self.finite() {
            self
        } else {
            fallback
        }
    }

    pub fn finite_or(self, fallback: Single) -> (r: Single)
        ensures
            r == self.spec_finite_or(fallback),
    {
        if self.is_finite() {
            self
        } else {
            fallback
        }
    }

    /// `self` moved into the range from `low` to `high`.
    pub open spec fn spec_clamped(self, low: Single, high: Single) -> Single {
        let raised = if self.below(low) {
            low
        } else {
            self
        };
        if high.below(raised) {
            high
        } else {
            raised
        }
    }

    pub fn clamped(self, low: Single, high: Single) -> (r: Single)
        ensures
            r == self.spec_clamped(low, high),
    {
        let raised = if self.lt(low) {
            low
        } else {
            self
        };
        if high.lt(raised) {
            high
        } else {
            raised
        }
    }

    /// The number itself, counted in units of 2^-149, the smallest positive number: the pattern
    /// holds an eight-bit exponent and a fraction of 23 bits.
    pub open spec fn units(self) -> int {
        if self.negative() {
            -magnitude_units(self.magnitude())
        } else {
            magnitude_units(self.magnitude())
        }
    }
}

/// The number behind a pattern without sign, in units of 2^-149.
pub open spec fn magnitude_units(m: int) -> int {
    let exponent = m / 0x80_0000;
    let fraction = m % 0x80_0000;
    if exponent == 0 {
        fraction
    } else {
        (0x80_0000 + fraction) * pow2((exponent - 1) as nat)
    }
}

proof fn lemma_magnitude_units_increase(a: int, b: int)
    requires
        0 <= a < b,
    ensures
        0 <= magnitude_units(a) < magnitude_units(b),
{
    let ea = a / 0x80_0000;
    let fa = a % 0x80_0000;
    let eb = b / 0x80_0000;
    let fb = b % 0x80_0000;
    let pb = pow2((eb - 1) as nat) as int;
    if eb > 0 {
        lemma_pow2_pos((eb - 1) as nat);
        assert((0x80_0000 + fb) * pb >= 0x80_0000 * pb) by (nonlinear_arith)
            requires
                fb >= 0,
                pb > 0,
        ;
    }
    if ea == eb {
        if ea > 0 {
            assert((0x80_0000 + fa) * pb < (0x80_0000 + fb) * pb) by (nonlinear_arith)
                requires
                    fa < fb,
                    pb > 0,
            ;
            assert((0x80_0000 + fa) * pb >= 0) by (nonlinear_arith)
                requires
                    fa >= 0,
                    pb > 0,
            ;
        }
    } else if ea == 0 {
        assert(0x80_0000 * pb >= 0x80_0000) by (nonlinear_arith)
            requires
                pb > 0,
        ;
    } else {
        let pa = pow2((ea - 1) as nat) as int;
        lemma_pow2_pos((ea - 1) as nat);
        lemma_pow2_adds(1, (ea - 1) as nat);
        vstd::arithmetic::power2::lemma2_to64();
        assert(pow2(ea as nat) == 2 * pa);
        if ea < eb - 1 {
            lemma_pow2_strictly_increases(ea as nat, (eb - 1) as nat);
        }
        assert((0x80_0000 + fa) * pa < 0x80_0000 * (2 * pa)) by (nonlinear_arith)
            requires
                fa < 0x80_0000,
                pa > 0,
        ;
        assert((0x80_0000 + fa) * pa >= 0) by (nonlinear_arith)
            requires
                fa >= 0,
                pa > 0,
        ;
        assert(0x80_0000 * (2 * pa) <= 0x80_0000 * pb);
    }
}

/// Comparing keys is comparing the numbers that the patterns stand for.
pub proof fn lemma_key_order_is_numeric(a: Single, b: Single)
    ensures
        a.key() < b.key() <==> a.units() < b.units(),
        a.key() == b.key() <==> a.units() == b.units(),
{
    let x = a.magnitude();
    let y = b.magnitude();
    assert(magnitude_units(0) == 0);
    if x > 0 {
        lemma_magnitude_units_increase(0, x);
    }
    if y > 0 {
        lemma_magnitude_units_increase(0, y);
    }
    if x < y {
        lemma_magnitude_units_increase(x, y);
    }
    if y < x {
        lemma_magnitude_units_increase(y, x);
    }
}

/// A comparison of two patterns is the comparison of the numbers that they stand for; with a
/// pattern that stands for none it is false.
pub proof fn law_comparisons_are_numeric(a: Single, b: Single)
    ensures
        a.nan() || b.nan() ==> !a.at_most(b) && !a.below(b),
        !a.nan() && !b.nan() ==> {
            &&& a.at_most(b) <==> a.units() <= b.units()
            &&& a.below(b) <==> a.units() < b.units()
        },
        a.nan() <==> a.bits % 0x8000_0000 > 0x7F80_0000,
        a.finite() <==> a.bits % 0x8000_0000 < 0x7F80_0000,
{
    lemma_key_order_is_numeric(a, b);
}

/// Moving a number into a range leaves one that lies there as it is and takes any other to the
/// nearer bound.
pub proof fn law_clamping_goes_to_the_nearer_bound(x: Single, low: Single, high: Single)
    requires
        !x.nan(),
        !low.nan(),
        !high.nan(),
        low.units() <= high.units(),
    ensures
        low.units() <= x.units() <= high.units() ==> x.spec_clamped(low, high) == x,
        x.units() < low.units() ==> x.spec_clamped(low, high) == low,
        x.units() > high.units() ==> x.spec_clamped(low, high) == high,
{
    lemma_key_order_is_numeric(x, low);
    lemma_key_order_is_numeric(x, high);
    lemma_key_order_is_numeric(low, high);
}

/// Exactly a number that is not finite is replaced.
pub proof fn law_only_infinite_numbers_are_replaced(x: Single, fallback: Single)
    ensures
        x.bits % 0x8000_0000 < 0x7F80_0000 ==> x.spec_finite_or(fallback) == x,
        x.bits % 0x8000_0000 >= 0x7F80_0000 ==> x.spec_finite_or(fallback) == fallback,
{
}

/// How far the next number is away, in units of 2^-149.
pub open spec fn gap_above(x: Single) -> int {
    let exponent = x.magnitude() / 0x80_0000;
    if exponent == 0 {
        1
    } else {
        pow2((exponent - 1) as nat) as int
    }
}

/// The number is the nearest one to the fraction `p / q`: it is no further from it than half the
/// distance to the next number.
pub open spec fn reads_as(x: Single, p: int, q: int) -> bool {
    &&& x.finite()
    &&& q > 0
    &&& -q * gap_above(x) <= 2 * (q * x.units() - p * pow2(149)) <= q * gap_above(x)
}

/// A pattern taken apart: the number is its 24 binary digits times a power of two, which `scale`
/// times make 2^149. It is the nearest to a fraction where its digits are.
pub proof fn lemma_reads_as(x: Single, exponent: nat, digits: int, scale: int, p: int, q: int)
    requires
        1 <= exponent <= 150,
        0x80_0000 <= digits < 0x100_0000,
        x.magnitude() == 0x80_0000 * exponent + digits - 0x80_0000,
        pow2((150 - exponent) as nat) == scale,
        q > 0,
        x.negative() ==> -q <= 2 * (-(q * digits) - p * scale) <= q,
        !x.negative() ==> -q <= 2 * (q * digits - p * scale) <= q,
    ensures
        reads_as(x, p, q),
{
    let gap = pow2((exponent - 1) as nat) as int;
    lemma_pow2_pos((exponent - 1) as nat);
    lemma_pow2_adds((150 - exponent) as nat, (exponent - 1) as nat);
    assert(x.magnitude() / 0x80_0000 == exponent);
    assert(x.magnitude() % 0x80_0000 == digits - 0x80_0000);
    assert(gap_above(x) == gap);
    let signed = if x.negative() {
        -digits
    } else {
        digits
    };
    assert(q * signed == if x.negative() {
        -(q * digits)
    } else {
        q * digits
    }) by (nonlinear_arith)
        requires
            signed == digits || signed == -digits,
            signed == -digits <==> x.negative(),
            digits > 0,
    ;
    assert(x.units() == signed * gap) by {
        assert(-(digits * gap) == (-digits) * gap) by (nonlinear_arith);
    }
    assert(-q * gap <= 2 * (q * (signed * gap) - p * (scale * gap)) <= q * gap) by (nonlinear_arith)
        requires
            -q <= 2 * (q * signed - p * scale) <= q,
            gap > 0,
    ;
}

/// The bit pattern of a 64-bit floating-point number. Nothing is computed with it here: it is
/// carried from where it was measured to where it is shown.
#[derive(Clone, Copy, Debug, Default, PartialEq, Eq, Structural)]
pub struct Double {
    pub bits: u64,
}

} // verus!
