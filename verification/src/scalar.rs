//! Binary32 numbers held by their bit patterns, and what each pattern denotes.

use vstd::prelude::*;
use vstd::arithmetic::power2::{pow2, lemma_pow2_pos, lemma_pow2_unfold, lemma_pow2_adds,
    lemma_pow2_strictly_increases, lemma2_to64};

verus! {

/// The sign bit of a pattern.
pub const SIGN_BIT: u32 = 0x8000_0000;

/// The magnitude of both infinities. Larger magnitudes denote no number.
pub const INFINITY_MAGNITUDE: u32 = 0x7f80_0000;

/// How many fraction patterns share one exponent: two to the 23rd.
pub const FRACTION_SPAN: u32 = 0x0080_0000;

/// The largest magnitude that denotes a finite number.
pub const LARGEST_FINITE_MAGNITUDE: u32 = 0x7f7f_ffff;

/// The smallest magnitude of the last exponent, from which doubling passes
/// the largest finite number.
pub const LAST_EXPONENT: u32 = 0x7f00_0000;

/// The pattern of the number one.
pub const ONE_BITS: u32 = 0x3f80_0000;

/// The pattern of the number ten.
pub const TEN_BITS: u32 = 0x4120_0000;

/// The pattern of the number one hundred.
pub const HUNDRED_BITS: u32 = 0x42c8_0000;

/// What a pattern denotes. A finite value is counted in units of two to the
/// power of minus 149, the spacing of the smallest subnormal numbers, so
/// that every finite value is a whole number of units.
pub ghost enum Value {
    NotANumber,
    NegativeInfinity,
    Finite(int),
    PositiveInfinity,
}

impl Value {
    /// Strictly less, as numbers compare: nothing is below or above what is
    /// not a number.
    pub open spec fn below(self, other: Value) -> bool {
        match (self, other) {
            (Value::NotANumber, _) => false,
            (_, Value::NotANumber) => false,
            (_, Value::NegativeInfinity) => false,
            (Value::PositiveInfinity, _) => false,
            (Value::NegativeInfinity, _) => true,
            (_, Value::PositiveInfinity) => true,
            (Value::Finite(a), Value::Finite(b)) => a < b,
        }
    }

    /// Equal as numbers: what is not a number equals nothing, itself
    /// included.
    pub open spec fn same(self, other: Value) -> bool {
        self != Value::NotANumber && self == other
    }

    /// Less or equal.
    pub open spec fn at_most(self, other: Value) -> bool {
        self.below(other) || self.same(other)
    }

    /// The value with the opposite sign.
    pub open spec fn opposite(self) -> Value {
        match self {
            Value::NotANumber => Value::NotANumber,
            Value::NegativeInfinity => Value::PositiveInfinity,
            Value::PositiveInfinity => Value::NegativeInfinity,
            Value::Finite(u) => Value::Finite(-u),
        }
    }

    pub open spec fn is_finite(self) -> bool {
        self is Finite
    }

    /// Twice the value, as binary32 rounds it: past the largest finite
    /// number the result is the infinity of that sign.
    pub open spec fn twice(self) -> Value {
        match self {
            Value::Finite(u) => if 2 * u > largest_units() {
                Value::PositiveInfinity
            } else if 2 * u < -largest_units() {
                Value::NegativeInfinity
            } else {
                Value::Finite(2 * u)
            },
            _ => self,
        }
    }
}

/// The whole number `n` as a value: `n` times two to the 149th units.
pub open spec fn whole(n: nat) -> Value {
    Value::Finite((n * pow2(149)) as int)
}

/// The units of the largest finite number.
pub open spec fn largest_units() -> int {
    (2 * FRACTION_SPAN - 1) * pow2(253)
}

/// The number of units that a finite magnitude pattern denotes.
pub open spec fn units_of_magnitude(m: u32) -> nat {
    let e = (m / FRACTION_SPAN) as nat;
    let f = (m % FRACTION_SPAN) as nat;
    if e == 0 {
        f
    } else {
        (f + FRACTION_SPAN as nat) * pow2((e - 1) as nat)
    }
}

/// A larger magnitude pattern denotes more units.
pub proof fn lemma_units_strictly_increase(a: u32, b: u32)
    requires
        a < b,
    ensures
        units_of_magnitude(a) < units_of_magnitude(b),
{
    let s = FRACTION_SPAN as int;
    let ea = (a / FRACTION_SPAN) as nat;
    let fa = (a % FRACTION_SPAN) as int;
    let eb = (b / FRACTION_SPAN) as nat;
    let fb = (b % FRACTION_SPAN) as int;
    assert(a == s * ea + fa && b == s * eb + fb);
    assert(ea <= eb) by (nonlinear_arith)
        requires
            s * ea + fa < s * eb + fb,
            0 <= fa < s,
            0 <= fb < s,
    ;
    if ea == eb {
        if ea > 0 {
            let p = pow2((ea - 1) as nat) as int;
            lemma_pow2_pos((ea - 1) as nat);
            assert((fa + s) * p < (fb + s) * p) by (nonlinear_arith)
                requires
                    fa < fb,
                    p > 0,
            ;
        }
    } else {
        let q = pow2((eb - 1) as nat) as int;
        lemma_pow2_pos((eb - 1) as nat);
        assert(s <= (fb + s) * q) by (nonlinear_arith)
            requires
                fb >= 0,
                s > 0,
                q >= 1,
        ;
        if ea > 0 {
            let p = pow2((ea - 1) as nat) as int;
            lemma_pow2_pos((ea - 1) as nat);
            lemma_pow2_unfold(ea);
            if ea < eb - 1 {
                lemma_pow2_strictly_increases(ea, (eb - 1) as nat);
            }
            assert(2 * p <= q);
            assert((fa + s) * p < (fb + s) * q) by (nonlinear_arith)
                requires
                    0 <= fa < s,
                    fb >= 0,
                    p > 0,
                    2 * p <= q,
            ;
        }
    }
}

/// A binary32 number, held by its bit pattern.
#[derive(Clone, Copy, Debug, PartialEq, Eq, Structural)]
pub struct Scalar {
    pub bits: u32,
}

impl View for Scalar {
    type V = Value;

    open spec fn view(&self) -> Value {
        let m = self.magnitude();
        if m > INFINITY_MAGNITUDE {
            Value::NotANumber
        } else if m == INFINITY_MAGNITUDE {
            if self.negative() {
                Value::NegativeInfinity
            } else {
                Value::PositiveInfinity
            }
        } else if self.negative() {
            Value::Finite(-(units_of_magnitude(m) as int))
        } else {
            Value::Finite(units_of_magnitude(m) as int)
        }
    }
}

impl Scalar {
    /// The pattern without its sign bit.
    pub open spec fn magnitude(self) -> u32 {
        if self.bits >= SIGN_BIT {
            (self.bits - SIGN_BIT) as u32
        } else {
            self.bits
        }
    }

    /// Whether the sign bit is set.
    pub open spec fn negative(self) -> bool {
        self.bits >= SIGN_BIT
    }

    /// The pattern with the sign bit flipped.
    pub open spec fn flipped(self) -> Scalar {
        if self.bits >= SIGN_BIT {
            Scalar { bits: (self.bits - SIGN_BIT) as u32 }
        } else {
            Scalar { bits: (self.bits + SIGN_BIT) as u32 }
        }
    }

    /// The place of the pattern in the order of numbers: the magnitude,
    /// counted downwards where the sign bit is set.
    pub open spec fn rank(self) -> int {
        if self.negative() {
            -(self.magnitude() as int)
        } else {
            self.magnitude() as int
        }
    }

    /// The pattern of twice the number: a subnormal doubles its fraction, a
    /// normal number steps to the next exponent, and from the last exponent
    /// the step leads to infinity.
    pub open spec fn twofold(self) -> Scalar {
        let m = self.magnitude();
        let doubled = if m >= INFINITY_MAGNITUDE {
            m
        } else if m < FRACTION_SPAN {
            (m + m) as u32
        } else if m < LAST_EXPONENT {
            (m + FRACTION_SPAN) as u32
        } else {
            INFINITY_MAGNITUDE
        };
        if self.negative() {
            Scalar { bits: (doubled + SIGN_BIT) as u32 }
        } else {
            Scalar { bits: doubled }
        }
    }

    pub fn from_bits(bits: u32) -> (r: Scalar)
        ensures
            r.bits == bits,
    {
        Scalar { bits }
    }

    pub fn to_bits(self) -> (r: u32)
        ensures
            r == self.bits,
    {
        self.bits
    }

    /// Positive zero.
    pub fn zero() -> (r: Scalar)
        ensures
            r.bits == 0,
            r@ == Value::Finite(0),
    {
        Scalar { bits: 0 }
    }

    fn magnitude_bits(self) -> (r: u32)
        ensures
            r == self.magnitude(),
    {
        if self.bits >= SIGN_BIT {
            self.bits - SIGN_BIT
        } else {
            self.bits
        }
    }

    pub fn is_sign_negative(self) -> (r: bool)
        ensures
            r == self.negative(),
    {
        self.bits >= SIGN_BIT
    }

    pub fn is_nan(self) -> (r: bool)
        ensures
            r == (self@ == Value::NotANumber),
    {
        self.magnitude_bits() > INFINITY_MAGNITUDE
    }

    pub fn is_finite(self) -> (r: bool)
        ensures
            r == self@.is_finite(),
    {
        self.magnitude_bits() < INFINITY_MAGNITUDE
    }

    /// Whether the number is zero, of either sign.
    pub fn is_zero(self) -> (r: bool)
        ensures
            r == (self@ == Value::Finite(0)),
    {
        let m = self.magnitude_bits();
        proof {
            if 0 < m {
                lemma_units_strictly_increase(0, m);
            }
        }
        m == 0
    }

    /// Strictly less.
    pub fn lt(self, other: Scalar) -> (r: bool)
        ensures
            r == self@.below(other@),
    {
        if self.is_nan() || other.is_nan() {
            return false;
        }
        let a = self.magnitude_bits();
        let b = other.magnitude_bits();
        proof {
            lemma_order_by_pattern(self, other);
        }
        if self.bits >= SIGN_BIT {
            if other.bits >= SIGN_BIT {
                b < a
            } else {
                a != 0 || b != 0
            }
        } else {
            if other.bits >= SIGN_BIT {
                false
            } else {
                a < b
            }
        }
    }

    /// Equal as numbers: the two zeros are equal, and what is not a number
    /// equals nothing.
    pub fn same_value(self, other: Scalar) -> (r: bool)
        ensures
            r == self@.same(other@),
    {
        if self.is_nan() || other.is_nan() {
            return false;
        }
        let a = self.magnitude_bits();
        let b = other.magnitude_bits();
        proof {
            lemma_order_by_pattern(self, other);
        }
        if a == 0 && b == 0 {
            true
        } else {
            self.bits == other.bits
        }
    }

    /// Less or equal.
    pub fn le(self, other: Scalar) -> (r: bool)
        ensures
            r == self@.at_most(other@),
    {
        self.lt(other) || self.same_value(other)
    }

    /// Strictly greater.
    pub fn gt(self, other: Scalar) -> (r: bool)
        ensures
            r == other@.below(self@),
    {
        other.lt(self)
    }

    /// Greater or equal.
    pub fn ge(self, other: Scalar) -> (r: bool)
        ensures
            r == other@.at_most(self@),
    {
        other.le(self)
    }

    /// The larger of two numbers. Where one of them is not a number the
    /// other is returned; of two equal numbers, the first.
    pub open spec fn larger(self, other: Scalar) -> Scalar {
        if other@ == Value::NotANumber {
            self
        } else if self@ == Value::NotANumber {
            other
        } else if self@.below(other@) {
            other
        } else {
            self
        }
    }

    /// The larger of two numbers.
    pub fn max(self, other: Scalar) -> (r: Scalar)
        ensures
            r == self.larger(other),
    {
        if other.is_nan() {
            self
        } else if self.is_nan() {
            other
        } else if self.lt(other) {
            other
        } else {
            self
        }
    }

    /// The number one.
    pub fn one() -> (r: Scalar)
        ensures
            r.bits == ONE_BITS,
            r@ == whole(1),
    {
        proof {
            lemma2_to64();
            lemma_pow2_adds(23, 126);
        }
        Scalar { bits: ONE_BITS }
    }

    /// The number ten.
    pub fn ten() -> (r: Scalar)
        ensures
            r.bits == TEN_BITS,
            r@ == whole(10),
    {
        proof {
            lemma2_to64();
            lemma_pow2_adds(20, 129);
            assert(0xa0_0000 * pow2(129) == 10 * (pow2(20) * pow2(129))) by (nonlinear_arith)
                requires
                    pow2(20) == 0x10_0000,
            ;
        }
        Scalar { bits: TEN_BITS }
    }

    /// The number one hundred.
    pub fn hundred() -> (r: Scalar)
        ensures
            r.bits == HUNDRED_BITS,
            r@ == whole(100),
    {
        proof {
            lemma2_to64();
            lemma_pow2_adds(17, 132);
            assert(0xc8_0000 * pow2(132) == 100 * (pow2(17) * pow2(132))) by (nonlinear_arith)
                requires
                    pow2(17) == 0x2_0000,
            ;
        }
        Scalar { bits: HUNDRED_BITS }
    }

    /// Twice the number. Doubling is exact in binary32 until it passes the
    /// largest finite number.
    pub fn doubled(self) -> (r: Scalar)
        ensures
            r == self.twofold(),
            r@ == self@.twice(),
    {
        proof {
            lemma_twofold_is_twice(self);
        }
        let m = self.magnitude_bits();
        let doubled: u32 = if m >= INFINITY_MAGNITUDE {
            m
        } else if m < FRACTION_SPAN {
            m + m
        } else if m < LAST_EXPONENT {
            m + FRACTION_SPAN
        } else {
            INFINITY_MAGNITUDE
        };
        if self.bits >= SIGN_BIT {
            Scalar { bits: doubled + SIGN_BIT }
        } else {
            Scalar { bits: doubled }
        }
    }

    /// The number times minus one: the same pattern with the other sign.
    pub fn negated(self) -> (r: Scalar)
        ensures
            r == self.flipped(),
            r@ == self@.opposite(),
    {
        if self.bits >= SIGN_BIT {
            Scalar { bits: self.bits - SIGN_BIT }
        } else {
            Scalar { bits: self.bits + SIGN_BIT }
        }
    }
}

/// Numbers are ordered as their patterns are ranked: of two patterns that
/// denote numbers, the one of lower rank denotes the lesser number, and
/// patterns of one rank denote equal numbers. The two zeros share a rank.
pub proof fn lemma_order_by_pattern(a: Scalar, b: Scalar)
    requires
        a@ != Value::NotANumber,
        b@ != Value::NotANumber,
    ensures
        a@.below(b@) <==> a.rank() < b.rank(),
        a@.same(b@) <==> a.rank() == b.rank(),
{
    let m = a.magnitude();
    let n = b.magnitude();
    if m < n {
        lemma_units_strictly_increase(m, n);
    }
    if n < m {
        lemma_units_strictly_increase(n, m);
    }
    if 0 < m {
        lemma_units_strictly_increase(0, m);
    }
    if 0 < n {
        lemma_units_strictly_increase(0, n);
    }
}

/// The pattern of twice a number denotes twice the number, with the sign
/// kept.
pub proof fn lemma_twofold_is_twice(s: Scalar)
    ensures
        s.twofold()@ == s@.twice(),
        s.twofold().negative() == s.negative(),
{
    let m = s.magnitude();
    let doubled = s.twofold().magnitude();
    if m < INFINITY_MAGNITUDE {
        lemma2_to64();
        let e = m / FRACTION_SPAN;
        let f = (m % FRACTION_SPAN) as int;
        let u = units_of_magnitude(m) as int;
        if e == 0 {
            if doubled >= FRACTION_SPAN {
                assert(doubled / FRACTION_SPAN == 1);
                assert(doubled % FRACTION_SPAN == doubled - FRACTION_SPAN);
                assert(pow2(0) == 1);
                assert((doubled - FRACTION_SPAN + FRACTION_SPAN) * 1 == doubled);
            } else {
                assert(doubled / FRACTION_SPAN == 0);
                assert(doubled % FRACTION_SPAN == doubled);
            }
            assert(units_of_magnitude(doubled) == 2 * u);
        } else if e < 254 {
            lemma_pow2_unfold(e as nat);
            let p = pow2((e - 1) as nat) as int;
            assert((f + FRACTION_SPAN) * (2 * p) == 2 * ((f + FRACTION_SPAN) * p))
                by (nonlinear_arith);
            assert(units_of_magnitude(doubled) == 2 * u);
        } else {
            let p = pow2(253) as int;
            lemma_pow2_pos(253);
            assert(2 * ((f + FRACTION_SPAN) * p) > (2 * FRACTION_SPAN - 1) * p)
                by (nonlinear_arith)
                requires
                    f >= 0,
                    p > 0,
            ;
        }
        if doubled < INFINITY_MAGNITUDE {
            assert(units_of_magnitude(LARGEST_FINITE_MAGNITUDE) == largest_units());
            if doubled < LARGEST_FINITE_MAGNITUDE {
                lemma_units_strictly_increase(doubled, LARGEST_FINITE_MAGNITUDE);
            }
        }
    }
}

} // verus!
