//! Double-precision numbers as the library sees them.
//!
//! The library never does arithmetic on reals: every sum, product, quotient
//! and root is worked out by the caller. What the library does with a number
//! is carry it, order it against another and pick between two of them. For
//! that it holds each number as its IEEE-754 binary64 bit pattern and gives
//! the pattern its mathematical meaning through [`Scalar::view`].

use vstd::arithmetic::power2::{lemma_pow2_pos, lemma_pow2_strictly_increases, lemma_pow2_unfold, pow2};
use vstd::prelude::*;

verus! {

/// The sign bit of a binary64 pattern.
pub const SIGN_BIT: u64 = 0x8000_0000_0000_0000;

/// Two to the fifty-second: the number of fraction patterns per exponent.
pub const FRACTION_SPAN: u64 = 0x0010_0000_0000_0000;

/// The pattern of positive infinity; every larger magnitude is a NaN.
pub const INFINITY_BITS: u64 = 0x7FF0_0000_0000_0000;

/// The pattern of `1.0`.
pub const ONE_BITS: u64 = 0x3FF0_0000_0000_0000;

/// What a binary64 pattern denotes.
///
/// `Finite(n)` is the real number `n * 2^-1074`: every finite double is a
/// whole multiple of the smallest subnormal, so `n` is exact. Both zeros are
/// `Finite(0)`.
pub ghost enum Value {
    Nan,
    NegInf,
    Finite(int),
    PosInf,
}

/// The strict order of the extended reals; nothing is ordered against a NaN.
pub open spec fn value_lt(a: Value, b: Value) -> bool {
    match (a, b) {
        (Value::Nan, _) => false,
        (_, Value::Nan) => false,
        (Value::NegInf, Value::NegInf) => false,
        (Value::NegInf, _) => true,
        (_, Value::NegInf) => false,
        (Value::PosInf, _) => false,
        (_, Value::PosInf) => true,
        (Value::Finite(x), Value::Finite(y)) => x < y,
    }
}

/// `a <= b` as IEEE-754 has it: false as soon as either side is a NaN.
pub open spec fn value_le(a: Value, b: Value) -> bool {
    !(a is Nan) && !(b is Nan) && !value_lt(b, a)
}

/// The value with its sign turned round; a NaN stays a NaN.
pub open spec fn value_neg(a: Value) -> Value {
    match a {
        Value::Nan => Value::Nan,
        Value::NegInf => Value::PosInf,
        Value::PosInf => Value::NegInf,
        Value::Finite(x) => Value::Finite(-x),
    }
}

/// The value without its sign; a NaN stays a NaN.
pub open spec fn value_abs(a: Value) -> Value {
    match a {
        Value::Nan => Value::Nan,
        Value::NegInf => Value::PosInf,
        Value::PosInf => Value::PosInf,
        Value::Finite(x) => Value::Finite(if x < 0 { -x } else { x }),
    }
}

/// The size of a finite pattern without its sign, in units of `2^-1074`.
pub open spec fn magnitude(m: u64) -> int {
    let e = m / FRACTION_SPAN;
    let f = m % FRACTION_SPAN;
    if e == 0 {
        f as int
    } else {
        (FRACTION_SPAN + f) * pow2((e - 1) as nat)
    }
}

/// What the pattern `bits` denotes.
pub open spec fn value_of(bits: u64) -> Value {
    let m = bits % SIGN_BIT;
    if m > INFINITY_BITS {
        Value::Nan
    } else if m == INFINITY_BITS {
        if bits >= SIGN_BIT { Value::NegInf } else { Value::PosInf }
    } else if bits >= SIGN_BIT {
        Value::Finite(-magnitude(m))
    } else {
        Value::Finite(magnitude(m))
    }
}

/// A larger finite pattern denotes a larger magnitude, and only the zero
/// pattern denotes zero.
pub proof fn lemma_magnitude_increases(m1: u64, m2: u64)
    requires
        m1 < m2 < INFINITY_BITS,
    ensures
        0 <= magnitude(m1) < magnitude(m2),
{
    let e1 = m1 / FRACTION_SPAN;
    let f1 = m1 % FRACTION_SPAN;
    let e2 = m2 / FRACTION_SPAN;
    let f2 = m2 % FRACTION_SPAN;
    let span = FRACTION_SPAN as int;
    assert(e1 <= e2);
    if e2 > 0 {
        lemma_pow2_pos((e2 - 1) as nat);
    }
    if e1 > 0 {
        lemma_pow2_pos((e1 - 1) as nat);
        let low_power = pow2((e1 - 1) as nat) as int;
        assert(0 <= (span + f1) * low_power) by (nonlinear_arith)
            requires
                0 < low_power,
                0 <= f1,
                0 < span,
        ;
    }
    if e1 == e2 {
        assert(f1 < f2);
        if e1 > 0 {
            let p = pow2((e1 - 1) as nat) as int;
            assert((span + f1) * p < (span + f2) * p) by (nonlinear_arith)
                requires
                    0 < p,
                    f1 < f2,
            ;
        }
    } else {
        let high_power = pow2((e2 - 1) as nat) as int;
        assert(span * 1 <= (span + f2) * high_power) by (nonlinear_arith)
            requires
                1 <= high_power,
                0 <= f2,
                0 < span,
        ;
        if e1 > 0 {
            let low_power = pow2((e1 - 1) as nat) as int;
            lemma_pow2_unfold(e1 as nat);
            assert(pow2(e1 as nat) == 2 * low_power);
            if e1 < e2 - 1 {
                lemma_pow2_strictly_increases(e1 as nat, (e2 - 1) as nat);
            }
            assert(2 * low_power <= high_power);
            assert((span + f1) * low_power < span * (2 * low_power)) by (nonlinear_arith)
                requires
                    0 < low_power,
                    0 <= f1 < span,
            ;
            assert(span * (2 * low_power) <= (span + f2) * high_power) by (nonlinear_arith)
                requires
                    2 * low_power <= high_power,
                    0 < low_power,
                    0 <= f2,
                    0 < span,
            ;
        }
    }
}

/// A double-precision number, held as its IEEE-754 bit pattern.
#[derive(Clone, Copy, Debug)]
pub struct Scalar {
    pub bits: u64,
}

impl View for Scalar {
    type V = Value;

    open spec fn view(&self) -> Value {
        value_of(self.bits)
    }
}

impl Scalar {
    /// The number with the pattern `bits`.
    pub fn from_bits(bits: u64) -> (r: Scalar)
        ensures
            r.bits == bits,
    {
        Scalar { bits }
    }

    /// The pattern of the number.
    pub fn to_bits(self) -> (r: u64)
        ensures
            r == self.bits,
    {
        self.bits
    }

    /// Positive zero.
    pub fn zero() -> (r: Scalar)
        ensures
            r.bits == 0,
            r@ == Value::Finite(0),
    {
        Scalar { bits: 0 }
    }

    /// The number one.
    pub fn one() -> (r: Scalar)
        ensures
            r.bits == ONE_BITS,
            r@ == Value::Finite(pow2(1074) as int),
    {
        proof {
            lemma_one_is_one();
        }
        Scalar { bits: ONE_BITS }
    }

    /// Positive infinity.
    pub fn infinity() -> (r: Scalar)
        ensures
            r.bits == INFINITY_BITS,
            r@ == Value::PosInf,
    {
        Scalar { bits: INFINITY_BITS }
    }

    /// Negative infinity.
    pub fn neg_infinity() -> (r: Scalar)
        ensures
            r.bits == INFINITY_BITS + SIGN_BIT,
            r@ == Value::NegInf,
    {
        Scalar { bits: 0xFFF0_0000_0000_0000 }
    }

    /// Whether the number is a NaN.
    pub fn is_nan(self) -> (r: bool)
        ensures
            r == (self@ is Nan),
    {
        self.bits % SIGN_BIT > INFINITY_BITS
    }

    /// Whether the sign bit is set. True of negative zero and of some NaNs.
    pub fn is_sign_negative(self) -> (r: bool)
        ensures
            r == (self.bits >= SIGN_BIT),
    {
        self.bits >= SIGN_BIT
    }

    /// `self < other`, as IEEE-754 compares.
    pub fn lt(self, other: Scalar) -> (r: bool)
        ensures
            r == value_lt(self@, other@),
    {
        if self.is_nan() || other.is_nan() {
            return false;
        }
        let a = self.bits % SIGN_BIT;
        let b = other.bits % SIGN_BIT;
        proof {
            if a < b && b < INFINITY_BITS {
                lemma_magnitude_increases(a, b);
            }
            if b < a && a < INFINITY_BITS {
                lemma_magnitude_increases(b, a);
            }
            if 0 < a < INFINITY_BITS {
                lemma_magnitude_increases(0, a);
            }
            if 0 < b < INFINITY_BITS {
                lemma_magnitude_increases(0, b);
            }
            assert(magnitude(0) == 0);
        }
        if self.bits >= SIGN_BIT {
            if other.bits >= SIGN_BIT {
                b < a
            } else {
                a != 0 || b != 0
            }
        } else if other.bits >= SIGN_BIT {
            false
        } else {
            a < b
        }
    }

    /// `self <= other`, as IEEE-754 compares.
    pub fn le(self, other: Scalar) -> (r: bool)
        ensures
            r == value_le(self@, other@),
    {
        if self.is_nan() || other.is_nan() {
            return false;
        }
        !other.lt(self)
    }

    /// `self > other`, as IEEE-754 compares.
    pub fn gt(self, other: Scalar) -> (r: bool)
        ensures
            r == value_lt(other@, self@),
    {
        other.lt(self)
    }

    /// `self >= other`, as IEEE-754 compares.
    pub fn ge(self, other: Scalar) -> (r: bool)
        ensures
            r == value_le(other@, self@),
    {
        other.le(self)
    }

    /// `self == other`, as IEEE-754 compares: the two zeros are equal, and a
    /// NaN equals nothing.
    pub fn equals(self, other: Scalar) -> (r: bool)
        ensures
            r == (!(self@ is Nan) && self@ == other@),
    {
        if self.is_nan() || other.is_nan() {
            return false;
        }
        proof {
            lemma_order_is_total(self@, other@);
        }
        !self.lt(other) && !other.lt(self)
    }

    /// The number with its sign turned round, which is what multiplying by
    /// minus one gives.
    pub fn neg(self) -> (r: Scalar)
        ensures
            r.bits == if self.bits >= SIGN_BIT { self.bits - SIGN_BIT } else { self.bits + SIGN_BIT },
            r@ == value_neg(self@),
    {
        if self.bits >= SIGN_BIT {
            Scalar { bits: self.bits - SIGN_BIT }
        } else {
            Scalar { bits: self.bits + SIGN_BIT }
        }
    }

    /// The number without its sign.
    pub fn abs(self) -> (r: Scalar)
        ensures
            r.bits == self.bits % SIGN_BIT,
            r@ == value_abs(self@),
    {
        proof {
            let m = self.bits % SIGN_BIT;
            if 0 < m < INFINITY_BITS {
                lemma_magnitude_increases(0, m);
            }
            assert(magnitude(0) == 0);
        }
        Scalar { bits: self.bits % SIGN_BIT }
    }

    /// The lesser of two numbers. Where one is a NaN the other is returned;
    /// where neither is less, `self` is.
    pub fn min(self, other: Scalar) -> (r: Scalar)
        ensures
            r == lesser(self, other),
    {
        if self.is_nan() {
            other
        } else if other.lt(self) {
            other
        } else {
            self
        }
    }

    /// The greater of two numbers. Where one is a NaN the other is returned;
    /// where neither is greater, `self` is.
    pub fn max(self, other: Scalar) -> (r: Scalar)
        ensures
            r == greater(self, other),
    {
        if self.is_nan() {
            other
        } else if self.lt(other) {
            other
        } else {
            self
        }
    }
}

/// What [`Scalar::min`] returns.
pub open spec fn lesser(a: Scalar, b: Scalar) -> Scalar {
    if a@ is Nan {
        b
    } else if value_lt(b@, a@) {
        b
    } else {
        a
    }
}

/// What [`Scalar::max`] returns.
pub open spec fn greater(a: Scalar, b: Scalar) -> Scalar {
    if a@ is Nan {
        b
    } else if value_lt(a@, b@) {
        b
    } else {
        a
    }
}

/// The pattern `ONE_BITS` denotes one, which is `2^1074` units.
pub proof fn lemma_one_is_one()
    ensures
        value_of(ONE_BITS) == Value::Finite(pow2(1074) as int),
{
    let e = ONE_BITS / FRACTION_SPAN;
    assert(e == 1023);
    assert(ONE_BITS % FRACTION_SPAN == 0);
    assert(FRACTION_SPAN as int == pow2(52)) by {
        vstd::arithmetic::power2::lemma2_to64_rest();
    }
    vstd::arithmetic::power2::lemma_pow2_adds(52, 1022);
}

/// Of two numbers neither of which is a NaN, one is less than the other or
/// they are equal.
pub proof fn lemma_order_is_total(a: Value, b: Value)
    requires
        !(a is Nan),
        !(b is Nan),
    ensures
        value_lt(a, b) || value_lt(b, a) || a == b,
        !(value_lt(a, b) && value_lt(b, a)),
{
}

/// The pattern `0x3FEFF7CED916872B`, which is that of 0.999, denotes a
/// number above zero.
pub proof fn lemma_brightest_is_positive()
    ensures
        value_lt(Value::Finite(0), value_of(0x3FEF_F7CE_D916_872B)),
{
    lemma_magnitude_increases(0, 0x3FEF_F7CE_D916_872B);
    assert(magnitude(0) == 0);
}

} // verus!
