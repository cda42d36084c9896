//! Single-precision numbers, held by their bit patterns.
//!
//! Colors, depths and tunable settings are IEEE 754 single-precision values. The rules in this
//! crate store them, copy them and compare them; they never do arithmetic on them. So a number is
//! kept as its 32 bits, and its order and value are stated over those bits.

use vstd::arithmetic::power2::{
    lemma2_to64, lemma_pow2_adds, lemma_pow2_pos, lemma_pow2_unfold, pow2,
};
use vstd::prelude::*;

verus! {

/// One more than the largest magnitude: the weight of the sign bit.
pub const SIGN: u32 = 0x8000_0000;

/// The magnitude of infinity. Every magnitude above it is a NaN.
pub const INFINITY: u32 = 0x7f80_0000;

/// How many fractions an exponent holds: the weight of the exponent's lowest bit.
pub const FRACTION: u32 = 0x0080_0000;

/// A single-precision number, held by its bit pattern.
///
/// `==` compares bit patterns; [`Single::le`] and [`Single::lt`] compare values.
#[derive(Clone, Copy, Debug, PartialEq, Eq, Structural)]
pub struct Single {
    /// The IEEE 754 bit pattern.
    pub bits: u32,
}

impl Single {
    /// Positive zero.
    #[verifier::allow_in_spec]
    pub fn zero() -> Single
        returns
            (Single { bits: 0 }),
    {
        Single { bits: 0 }
    }

    /// One.
    #[verifier::allow_in_spec]
    pub fn one() -> Single
        returns
            (Single { bits: 0x3f80_0000 }),
    {
        Single { bits: 0x3f80_0000 }
    }

    /// One half.
    #[verifier::allow_in_spec]
    pub fn half() -> Single
        returns
            (Single { bits: 0x3f00_0000 }),
    {
        Single { bits: 0x3f00_0000 }
    }

    /// The bit pattern without its sign.
    pub open spec fn magnitude(self) -> int {
        self.bits as int % SIGN as int
    }

    /// Whether the sign bit is set.
    pub open spec fn is_negative(self) -> bool {
        self.bits >= SIGN
    }

    /// Whether this is not a number.
    pub open spec fn is_nan(self) -> bool {
        self.magnitude() > INFINITY
    }

    /// Whether this is a finite number.
    pub open spec fn is_finite(self) -> bool {
        self.magnitude() < INFINITY
    }

    /// The position of this number among all numbers: both zeros are at 0.
    pub open spec fn rank(self) -> int {
        if self.is_negative() {
            -self.magnitude()
        } else {
            self.magnitude()
        }
    }

    /// The value of a finite number, counted in units of two to the power of -149, of which every
    /// finite number is a whole multiple.
    pub open spec fn units(self) -> int {
        let size = unit_count(self.magnitude());
        if self.is_negative() {
            -size
        } else {
            size
        }
    }

    /// Whether this is less than or equal to `other`; false where either is not a number.
    pub open spec fn spec_le(self, other: Single) -> bool {
        !self.is_nan() && !other.is_nan() && self.rank() <= other.rank()
    }

    /// Whether this is less than `other`; false where either is not a number.
    pub open spec fn spec_lt(self, other: Single) -> bool {
        !self.is_nan() && !other.is_nan() && self.rank() < other.rank()
    }

    /// The number with the given bit pattern.
    pub fn from_bits(bits: u32) -> (r: Single)
        ensures
            r == (Single { bits }),
    {
        Single { bits }
    }

    /// The bit pattern of this number.
    pub fn to_bits(self) -> (bits: u32)
        ensures
            bits == self.bits,
    {
        self.bits
    }

    /// Whether this is not a number.
    pub fn nan(self) -> (b: bool)
        ensures
            b == self.is_nan(),
    {
        self.bits % SIGN > INFINITY
    }

    /// The position of this number among all numbers.
    fn position(self) -> (p: i64)
        ensures
            p == self.rank(),
    {
        let size: i64 = (self.bits % SIGN) as i64;
        if self.bits >= SIGN {
            -size
        } else {
            size
        }
    }

    /// Whether this is less than or equal to `other`.
    pub fn le(self, other: Single) -> (b: bool)
        ensures
            b == self.spec_le(other),
    {
        !self.nan() && !other.nan() && self.position() <= other.position()
    }

    /// Whether this is less than `other`.
    pub fn lt(self, other: Single) -> (b: bool)
        ensures
            b == self.spec_lt(other),
    {
        !self.nan() && !other.nan() && self.position() < other.position()
    }

    /// This number, kept between zero and one; a NaN stays.
    pub open spec fn spec_clamped(self) -> Single {
        if self.spec_lt(Single::zero()) {
            Single::zero()
        } else if Single::one().spec_lt(self) {
            Single::one()
        } else {
            self
        }
    }

    /// This number, kept between zero and one; a NaN stays.
    pub fn clamped(self) -> (r: Single)
        ensures
            r == self.spec_clamped(),
    {
        if self.lt(Single::zero()) {
            Single::zero()
        } else if Single::one().lt(self) {
            Single::one()
        } else {
            self
        }
    }

    /// Whether both are numbers of the same value: the two zeros are, and no NaN is.
    pub open spec fn same_value(self, other: Single) -> bool {
        !self.is_nan() && !other.is_nan() && self.rank() == other.rank()
    }

    /// Whether both are numbers of the same value.
    pub fn equals(self, other: Single) -> (b: bool)
        ensures
            b == self.same_value(other),
    {
        !self.nan() && !other.nan() && self.position() == other.position()
    }

    /// The number nearest to `level / 255`.
    pub fn from_level(level: u8) -> (r: Single)
        ensures
            nearest_level(level, r),
    {
        if level == 0 {
            return Single::zero();
        }
        proof {
            lemma2_to64();
        }
        let n: u64 = level as u64;
        let (shift, scale): (u32, u64) = if level == 255 {
            (23, 0x80_0000)
        } else if level >= 128 {
            (24, 0x100_0000)
        } else if level >= 64 {
            (25, 0x200_0000)
        } else if level >= 32 {
            (26, 0x400_0000)
        } else if level >= 16 {
            (27, 0x800_0000)
        } else if level >= 8 {
            (28, 0x1000_0000)
        } else if level >= 4 {
            (29, 0x2000_0000)
        } else if level >= 2 {
            (30, 0x4000_0000)
        } else {
            (31, 0x8000_0000)
        };
        assert(scale == pow2(shift as nat));
        assert(0x80_0000 * 255 <= n * scale < 0x100_0000 * 255 - 255) by (nonlinear_arith)
            requires
                (level == 255 && scale == 0x80_0000) || (128 <= level < 255 && scale == 0x100_0000)
                    || (64 <= level < 128 && scale == 0x200_0000) || (32 <= level < 64 && scale
                    == 0x400_0000) || (16 <= level < 32 && scale == 0x800_0000) || (8 <= level < 16
                    && scale == 0x1000_0000) || (4 <= level < 8 && scale == 0x2000_0000) || (2
                    <= level < 4 && scale == 0x4000_0000) || (level == 1 && scale == 0x8000_0000),
                n == level,
        ;
        let mantissa: u64 = (n * scale + 127) / 255;
        let exponent: u32 = 150 - shift;
        let r = Single { bits: exponent * FRACTION + (mantissa - 0x80_0000) as u32 };
        proof {
            assert(r.bits as int / FRACTION as int == exponent && r.bits as int % FRACTION as int
                == mantissa - 0x80_0000);
            assert(is_level_mantissa(level, shift as nat, mantissa as int));
        }
        r
    }

    /// The number `numerator / 2^scale`, which is exact for a numerator of up to 24 bits.
    pub fn dyadic(numerator: u32, scale: u32) -> (r: Single)
        requires
            0 < numerator < 0x100_0000,
            scale <= 100,
        ensures
            r.is_finite(),
            r.units() == numerator * pow2((149 - scale) as nat),
    {
        let mut mantissa: u32 = numerator;
        let mut shift: u32 = 0;
        proof {
            lemma2_to64();
        }
        while mantissa < FRACTION
            invariant
                0 < mantissa < 0x100_0000,
                shift <= 23,
                mantissa == numerator * pow2(shift as nat),
                pow2(shift as nat) <= mantissa,
                numerator > 0,
            decreases 0x100_0000 - mantissa,
        {
            proof {
                lemma_pow2_unfold((shift + 1) as nat);
                assert(numerator * (2 * pow2(shift as nat)) == 2 * (numerator * pow2(
                    shift as nat,
                ))) by (nonlinear_arith);
                if shift == 23 {
                    lemma2_to64();
                }
            }
            mantissa = mantissa * 2;
            shift = shift + 1;
        }
        let exponent: u32 = 150 - scale - shift;
        let r = Single { bits: exponent * FRACTION + (mantissa - FRACTION) };
        proof {
            let e = exponent as int;
            assert(r.bits as int / FRACTION as int == e);
            assert(r.units() == mantissa * pow2((e - 1) as nat));
            lemma_pow2_adds(shift as nat, (e - 1) as nat);
            assert((numerator * pow2(shift as nat)) * pow2((e - 1) as nat) == numerator * (pow2(
                shift as nat,
            ) * pow2((e - 1) as nat))) by (nonlinear_arith);
        }
        r
    }
}

/// The value, in units of two to the power of -149, of the finite number of that magnitude.
pub open spec fn unit_count(magnitude: int) -> int {
    let exponent = magnitude / FRACTION as int;
    let fraction = magnitude % FRACTION as int;
    if exponent == 0 {
        fraction
    } else {
        (FRACTION + fraction) * pow2((exponent - 1) as nat)
    }
}

/// Whether `mantissa` is `level * 2^shift / 255` rounded to the nearest whole number, and takes
/// exactly 24 bits.
pub open spec fn is_level_mantissa(level: u8, shift: nat, mantissa: int) -> bool {
    &&& 0x80_0000 <= mantissa < 0x100_0000
    &&& -255 < 2 * (255 * mantissa - level * pow2(shift)) < 255
}

/// Whether `r` is `level / 255` rounded to the nearest number of 24 significant bits.
pub open spec fn nearest_level(level: u8, r: Single) -> bool {
    if level == 0 {
        r == Single::zero()
    } else {
        exists|shift: nat, mantissa: int|
            {
                &&& #[trigger] is_level_mantissa(level, shift, mantissa)
                &&& 23 <= shift <= 31
                &&& r.bits == (150 - shift) * FRACTION + (mantissa - 0x80_0000)
            }
    }
}

/// `level / 255`, rounded to the nearest number.
pub open spec fn level_value(level: u8) -> Single {
    choose|r: Single| nearest_level(level, r)
}

/// Only one number is nearest to `level / 255`.
pub proof fn lemma_nearest_level_is_unique(level: u8, r: Single)
    requires
        nearest_level(level, r),
    ensures
        r == level_value(level),
{
    let q = level_value(level);
    if level != 0 {
        let (s, m) = choose|shift: nat, mantissa: int|
            {
                &&& #[trigger] is_level_mantissa(level, shift, mantissa)
                &&& 23 <= shift <= 31
                &&& r.bits == (150 - shift) * FRACTION + (mantissa - 0x80_0000)
            };
        let (t, n) = choose|shift: nat, mantissa: int|
            {
                &&& #[trigger] is_level_mantissa(level, shift, mantissa)
                &&& 23 <= shift <= 31
                &&& q.bits == (150 - shift) * FRACTION + (mantissa - 0x80_0000)
            };
        lemma_level_mantissa_is_unique(level, s, m, t, n);
    }
}

proof fn lemma_level_mantissa_is_unique(level: u8, s: nat, m: int, t: nat, n: int)
    requires
        is_level_mantissa(level, s, m),
        is_level_mantissa(level, t, n),
        23 <= s <= 31,
        23 <= t <= 31,
    ensures
        s == t && m == n,
{
    lemma2_to64();
    if s < t {
        lemma_level_shift_is_smallest(level, s, m, t);
    }
    if t < s {
        lemma_level_shift_is_smallest(level, t, n, s);
    }
}

proof fn lemma_level_shift_is_smallest(level: u8, s: nat, m: int, t: nat)
    requires
        is_level_mantissa(level, s, m),
        23 <= s < t,
    ensures
        level * pow2(t) >= 255 * 0x100_0000,
{
    lemma2_to64();
    lemma_pow2_adds(23, (s - 23) as nat);
    lemma_pow2_adds(s, (t - s) as nat);
    lemma_pow2_pos((t - s - 1) as nat);
    lemma_pow2_unfold((t - s) as nat);
    let q = level * pow2((s - 23) as nat);
    let wide = pow2(s);
    assert(level * wide == q * 0x80_0000) by (nonlinear_arith)
        requires
            wide == 0x80_0000 * pow2((s - 23) as nat),
            q == level * pow2((s - 23) as nat),
    ;
    assert(q >= 255);
    assert(level * pow2(t) >= 2 * (level * wide)) by (nonlinear_arith)
        requires
            pow2(t) == wide * pow2((t - s) as nat),
            pow2((t - s) as nat) >= 2,
            wide >= 0,
            level >= 0,
    ;
}

/// A larger magnitude is a larger value.
proof fn lemma_unit_count_increases(a: int, b: int)
    requires
        0 <= a < b < INFINITY,
    ensures
        unit_count(a) < unit_count(b),
    decreases b - a,
{
    if a + 1 < b {
        lemma_unit_count_increases(a, b - 1);
        lemma_unit_count_increases(b - 1, b);
    } else {
        let e = a / FRACTION as int;
        let f = a % FRACTION as int;
        if e > 0 {
            lemma_pow2_pos((e - 1) as nat);
        }
        if f + 1 == FRACTION {
            assert(b / FRACTION as int == e + 1 && b % FRACTION as int == 0);
            if e > 0 {
                lemma_pow2_unfold(e as nat);
                assert((FRACTION + f) * pow2((e - 1) as nat) < (FRACTION as int) * (2 * pow2(
                    (e - 1) as nat,
                ))) by (nonlinear_arith)
                    requires
                        f + 1 == FRACTION,
                        pow2((e - 1) as nat) > 0,
                ;
            } else {
                lemma2_to64();
            }
        } else {
            assert(b / FRACTION as int == e && b % FRACTION as int == f + 1);
            if e > 0 {
                assert((FRACTION + f) * pow2((e - 1) as nat) < (FRACTION + f + 1) * pow2(
                    (e - 1) as nat,
                )) by (nonlinear_arith)
                    requires
                        pow2((e - 1) as nat) > 0,
                ;
            }
        }
    }
}

/// Comparing two finite numbers by rank is comparing their values.
pub proof fn law_order_is_the_order_of_values(a: Single, b: Single)
    requires
        a.is_finite(),
        b.is_finite(),
    ensures
        a.spec_le(b) <==> a.units() <= b.units(),
        a.spec_lt(b) <==> a.units() < b.units(),
{
    let (m, n) = (a.magnitude(), b.magnitude());
    if m < n {
        lemma_unit_count_increases(m, n);
    }
    if n < m {
        lemma_unit_count_increases(n, m);
    }
    if 0 < m {
        lemma_unit_count_increases(0, m);
    }
    if 0 < n {
        lemma_unit_count_increases(0, n);
    }
    assert(unit_count(0) == 0);
}

/// A level comes out at its share of 255, up to a relative error of one in two to the power of 23:
/// in units, 255 times the number is the level times as many units as make up one. No level is at
/// zero, and the highest exactly at one.
pub proof fn law_level_is_its_share(level: u8, r: Single)
    requires
        nearest_level(level, r),
    ensures
        r.is_finite(),
        r.units() >= 0,
        level == 0 ==> r == Single::zero(),
        level == 255 ==> r == Single::one(),
        -(128 * pow2(126)) <= 255 * r.units() - level * pow2(149) <= 128 * pow2(126),
{
    lemma_pow2_pos(126);
    if level == 0 {
        assert(unit_count(0) == 0);
    } else {
        let (s, m) = choose|shift: nat, mantissa: int|
            {
                &&& #[trigger] is_level_mantissa(level, shift, mantissa)
                &&& 23 <= shift <= 31
                &&& r.bits == (150 - shift) * FRACTION + (mantissa - 0x80_0000)
            };
        let wide = pow2((149 - s) as nat);
        lemma_pow2_pos((149 - s) as nat);
        lemma_pow2_adds(s, (149 - s) as nat);
        lemma_pow2_adds((149 - s) as nat, (s - 23) as nat);
        lemma_pow2_pos((s - 23) as nat);
        assert(r.bits as int / FRACTION as int == 150 - s);
        assert(r.units() == m * wide);
        let off = 255 * m - level * pow2(s);
        assert(255 * (m * wide) - level * (pow2(s) * wide) == off * wide) by (nonlinear_arith)
            requires
                off == 255 * m - level * pow2(s),
        ;
        assert(wide <= pow2(126)) by (nonlinear_arith)
            requires
                pow2(126) == wide * pow2((s - 23) as nat),
                pow2((s - 23) as nat) >= 1,
                wide >= 0,
        ;
        assert(-(128 * pow2(126)) <= off * wide <= 128 * pow2(126)) by (nonlinear_arith)
            requires
                -128 <= off <= 128,
                0 < wide <= pow2(126),
        ;
        assert(m * wide >= 0) by (nonlinear_arith)
            requires
                m >= 0,
                wide > 0,
        ;
        if level == 255 {
            lemma2_to64();
            assert(is_level_mantissa(255, 23, 0x80_0000));
            lemma_level_mantissa_is_unique(255, s, m, 23, 0x80_0000);
        }
    }
}

/// A higher level is a larger number.
pub proof fn law_higher_level_is_larger(low: u8, high: u8, a: Single, b: Single)
    requires
        low < high,
        nearest_level(low, a),
        nearest_level(high, b),
    ensures
        a.spec_lt(b),
{
    law_level_is_its_share(low, a);
    law_level_is_its_share(high, b);
    lemma_pow2_adds(126, 23);
    lemma2_to64();
    lemma_pow2_pos(126);
    let unit = pow2(126);
    assert(high * (unit * 0x80_0000) - low * (unit * 0x80_0000) >= unit * 0x80_0000)
        by (nonlinear_arith)
        requires
            low < high,
            unit > 0,
    ;
    law_order_is_the_order_of_values(a, b);
}

/// Clamping keeps a number between zero and one as it is, and takes one beyond them to the nearer.
pub proof fn law_clamping_takes_to_the_nearest(v: Single)
    requires
        !v.is_nan(),
    ensures
        Single::zero().spec_le(v.spec_clamped()) && v.spec_clamped().spec_le(Single::one()),
        Single::zero().spec_le(v) && v.spec_le(Single::one()) ==> v.spec_clamped() == v,
        v.spec_lt(Single::zero()) ==> v.spec_clamped() == Single::zero(),
        Single::one().spec_lt(v) ==> v.spec_clamped() == Single::one(),
{
}

} // verus!
