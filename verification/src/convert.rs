//! Whole numbers from scalars and back: cut off towards zero or down, or
//! rounded to the nearest, and held to the range of the integer where the
//! number does not fit.

use crate::scalar::{Scalar, SIGN_BIT};
use vstd::arithmetic::div_mod::{
    lemma_basic_div, lemma_div_multiples_vanish, lemma_div_multiples_vanish_quotient,
    lemma_mod_multiples_basic, lemma_small_mod, lemma_truncate_middle,
};
use vstd::arithmetic::mul::{
    lemma_mul_inequality, lemma_mul_is_associative, lemma_mul_is_commutative, lemma_mul_nonzero,
    lemma_mul_strict_inequality, lemma_mul_strictly_positive,
};
use vstd::arithmetic::power2::{
    lemma2_to64, lemma_pow2_adds, lemma_pow2_pos, lemma_pow2_strictly_increases,
    lemma_pow2_unfold, pow2,
};
use vstd::prelude::*;

verus! {

/// The least magnitude with a given exponent of 1: the weight of the
/// exponent field in a bit pattern, and of the hidden bit in a significand.
pub const HIDDEN_BIT: u32 = 0x80_0000u32;

impl Scalar {
    /// The exponent field of the pattern.
    pub open spec fn exponent(self) -> int {
        self.magnitude() / (HIDDEN_BIT as int)
    }

    /// The fraction field of the pattern.
    pub open spec fn fraction(self) -> int {
        self.magnitude() % (HIDDEN_BIT as int)
    }

    /// The digits of the number: the fraction, with the hidden bit before
    /// it unless the exponent field is zero.
    pub open spec fn significand(self) -> int {
        if self.exponent() == 0 {
            self.fraction()
        } else {
            HIDDEN_BIT + self.fraction()
        }
    }

    /// The absolute value of the number, counted in units of 2 to the
    /// power -149, the smallest positive value: every number is a whole
    /// count of them. Infinity counts as 2 to the power 277.
    pub open spec fn units(self) -> int {
        if self.exponent() == 0 {
            self.fraction()
        } else {
            self.significand() * pow2((self.exponent() - 1) as nat)
        }
    }

    /// The whole part of the absolute value.
    pub open spec fn whole(self) -> int {
        self.units() / (pow2(149) as int)
    }

    /// Whether the number is not whole.
    pub open spec fn has_fraction(self) -> bool {
        self.units() % (pow2(149) as int) != 0
    }

    /// The number as a 32-bit integer: its whole part with its sign, the
    /// nearest end of the range where that does not fit, and 0 for what is
    /// not a number.
    pub open spec fn to_i32_spec(self) -> int {
        if self.is_nan() {
            0
        } else if self.negative() {
            if self.whole() >= 0x8000_0000 {
                -0x8000_0000
            } else {
                -self.whole()
            }
        } else {
            if self.whole() >= 0x8000_0000 {
                0x7fff_ffff
            } else {
                self.whole()
            }
        }
    }

    /// The greatest whole number that is not above the number, as a 32-bit
    /// integer: the nearest end of the range where that does not fit, and 0
    /// for what is not a number.
    pub open spec fn floor_to_i32_spec(self) -> int {
        if self.is_nan() {
            0
        } else if self.negative() {
            let down = if self.has_fraction() {
                self.whole() + 1
            } else {
                self.whole()
            };
            if down >= 0x8000_0000 {
                -0x8000_0000
            } else {
                -down
            }
        } else {
            if self.whole() >= 0x8000_0000 {
                0x7fff_ffff
            } else {
                self.whole()
            }
        }
    }

    /// Whether the part of the absolute value behind the point is one half
    /// or more.
    pub open spec fn half_or_more(self) -> bool {
        self.units() % (pow2(149) as int) >= pow2(148)
    }

    /// The whole number nearest to the absolute value; of two that are
    /// equally near, the greater.
    pub open spec fn nearest(self) -> int {
        if self.half_or_more() {
            self.whole() + 1
        } else {
            self.whole()
        }
    }

    /// The number as the value of a colour channel: the nearest whole
    /// number, but 0 for a negative number and for what is not a number, and
    /// 255 for a number whose nearest whole number is above 255.
    pub open spec fn to_byte_spec(self) -> int {
        if self.is_nan() || self.negative() {
            0
        } else if self.nearest() >= 255 {
            255
        } else {
            self.nearest()
        }
    }
}

/// A number with an exponent field below 127 is less than 1: its whole part
/// is 0, and it has a fraction unless it is zero.
pub proof fn lemma_whole_of_small(s: Scalar)
    requires
        s.exponent() < 127,
    ensures
        s.whole() == 0,
        s.has_fraction() <==> s.magnitude() != 0,
        s.half_or_more() <==> s.exponent() == 126,
{
    let e = s.exponent();
    let f = s.fraction();
    lemma2_to64();
    lemma_pow2_pos(149);
    lemma_pow2_adds(24, 125);
    lemma_pow2_strictly_increases(24, 149);
    lemma_pow2_adds(24, 124);
    lemma_pow2_adds(23, 125);
    lemma_pow2_strictly_increases(23, 148);
    if e == 0 {
        assert(s.units() == f);
        assert(s.magnitude() == f);
    } else {
        let m = HIDDEN_BIT + f;
        let a = pow2((e - 1) as nat) as int;
        lemma_pow2_pos((e - 1) as nat);
        if e - 1 < 125 {
            lemma_pow2_strictly_increases((e - 1) as nat, 125);
        }
        assert(a <= pow2(125));
        lemma_mul_inequality(a, pow2(125) as int, m as int);
        lemma_mul_strict_inequality(m as int, pow2(24) as int, pow2(125) as int);
        lemma_mul_is_commutative(m as int, a);
        lemma_mul_is_commutative(m as int, pow2(125) as int);
        lemma_mul_strictly_positive(m as int, a);
        assert(0 < s.units() < pow2(149));
        if e == 126 {
            lemma_mul_inequality(HIDDEN_BIT as int, m as int, pow2(125) as int);
            assert(s.units() >= pow2(148));
        } else {
            if e - 1 < 124 {
                lemma_pow2_strictly_increases((e - 1) as nat, 124);
            }
            assert(a <= pow2(124));
            lemma_mul_inequality(a, pow2(124) as int, m as int);
            lemma_mul_strict_inequality(m as int, pow2(24) as int, pow2(124) as int);
            lemma_mul_is_commutative(m as int, pow2(124) as int);
            assert(s.units() < pow2(148));
        }
    }
    lemma_basic_div(s.units(), pow2(149) as int);
    lemma_small_mod(s.units() as nat, pow2(149));
}

/// A number with an exponent field from 1 to 149 has a part behind the
/// point of one half or more exactly if the digits of its significand
/// behind the point make up half of their range or more.
pub proof fn lemma_half_of_medium(s: Scalar)
    requires
        1 <= s.exponent() <= 149,
    ensures
        s.half_or_more() <==> 2 * ((HIDDEN_BIT + s.fraction()) % (pow2(
            (150 - s.exponent()) as nat,
        ) as int)) >= pow2((150 - s.exponent()) as nat),
{
    let e = s.exponent();
    let m = HIDDEN_BIT + s.fraction();
    let a = pow2((e - 1) as nat) as int;
    let d = pow2((150 - e) as nat) as int;
    let h = pow2((149 - e) as nat) as int;
    lemma_pow2_pos((e - 1) as nat);
    lemma_pow2_pos((150 - e) as nat);
    lemma_pow2_pos((149 - e) as nat);
    lemma_pow2_unfold((150 - e) as nat);
    assert(d == 2 * h);
    lemma_pow2_adds((e - 1) as nat, (150 - e) as nat);
    lemma_pow2_adds((e - 1) as nat, (149 - e) as nat);
    assert(pow2(149) == a * d);
    assert(pow2(148) == a * h);
    assert(s.units() == m * a);
    lemma_mul_is_commutative(m as int, a);
    lemma_truncate_middle(m as int, a, d);
    let rest = m % d;
    assert(s.units() % (pow2(149) as int) == a * rest);
    if rest >= h {
        lemma_mul_inequality(h, rest, a);
        lemma_mul_is_commutative(a, h);
        lemma_mul_is_commutative(a, rest);
    } else {
        lemma_mul_strict_inequality(rest, h, a);
        lemma_mul_is_commutative(a, h);
        lemma_mul_is_commutative(a, rest);
    }
}

/// A number with an exponent field from 127 to 150 has its significand,
/// without the digits behind the point, as its whole part.
pub proof fn lemma_whole_of_medium(s: Scalar)
    requires
        1 <= s.exponent() <= 150,
    ensures
        s.whole() == (HIDDEN_BIT + s.fraction()) / (pow2((150 - s.exponent()) as nat) as int),
        s.has_fraction() <==> (HIDDEN_BIT + s.fraction()) % (pow2(
            (150 - s.exponent()) as nat,
        ) as int) != 0,
        pow2((150 - s.exponent()) as nat) > 0,
{
    let e = s.exponent();
    let m = HIDDEN_BIT + s.fraction();
    let a = pow2((e - 1) as nat) as int;
    let d = pow2((150 - e) as nat) as int;
    lemma_pow2_pos((e - 1) as nat);
    lemma_pow2_pos((150 - e) as nat);
    lemma_pow2_adds((e - 1) as nat, (150 - e) as nat);
    assert(pow2(149) == a * d);
    assert(s.units() == m * a);
    lemma_mul_is_commutative(m as int, a);
    lemma_div_multiples_vanish_quotient(a, m as int, d);
    lemma_truncate_middle(m as int, a, d);
    lemma_mul_nonzero(a, m % d);
}

/// A number with an exponent field of 150 or more is whole.
pub proof fn lemma_whole_of_large(s: Scalar)
    requires
        150 <= s.exponent(),
    ensures
        s.whole() == (HIDDEN_BIT + s.fraction()) * pow2((s.exponent() - 150) as nat),
        !s.has_fraction(),
        !s.half_or_more(),
{
    lemma_pow2_pos(148);
    let e = s.exponent();
    let m = HIDDEN_BIT + s.fraction();
    let a = pow2(149) as int;
    let k = pow2((e - 150) as nat) as int;
    lemma_pow2_pos(149);
    lemma_pow2_adds(149, (e - 150) as nat);
    assert(pow2((e - 1) as nat) == a * k);
    assert(s.units() == m * (a * k));
    lemma_mul_is_commutative(a, k);
    lemma_mul_is_associative(m as int, k, a);
    lemma_mul_is_commutative(m * k, a);
    assert(s.units() == a * (m * k));
    lemma_div_multiples_vanish(m * k, a);
    lemma_mod_multiples_basic(m * k, a);
}

/// A number with an exponent field of 158 or more is at least 2 to the
/// power 31.
pub proof fn lemma_whole_of_huge(s: Scalar)
    requires
        158 <= s.exponent(),
    ensures
        s.whole() >= 0x8000_0000,
{
    let e = s.exponent();
    let m = HIDDEN_BIT + s.fraction();
    lemma_whole_of_large(s);
    lemma2_to64();
    lemma_pow2_pos((e - 150) as nat);
    if e - 150 > 8 {
        lemma_pow2_strictly_increases(8, (e - 150) as nat);
    }
    let k = pow2((e - 150) as nat) as int;
    assert(k >= 0x100);
    lemma_mul_inequality(0x100, k, m as int);
    lemma_mul_is_commutative(m as int, k);
    lemma_mul_inequality(HIDDEN_BIT as int, m as int, 0x100);
    lemma_mul_is_commutative(m as int, 0x100);
    assert(HIDDEN_BIT * 0x100 == 0x8000_0000) by (nonlinear_arith);
}

/// 2 to the power `k`.
fn power_of_two(k: u32) -> (r: u32)
    requires
        k <= 31,
    ensures
        r == pow2(k as nat),
        r > 0,
{
    let mut r: u32 = 1;
    let mut i: u32 = 0;
    proof {
        lemma2_to64();
    }
    while i < k
        invariant
            i <= k <= 31,
            r == pow2(i as nat),
            r > 0,
        decreases k - i,
    {
        proof {
            lemma2_to64();
            lemma_pow2_unfold((i + 1) as nat);
            if i < 30 {
                lemma_pow2_strictly_increases(i as nat, 30);
            }
        }
        r = r * 2;
        i = i + 1;
    }
    r
}

impl Scalar {
    /// The whole part of the absolute value, or 2 to the power 31 if it is
    /// greater than that; whether the number is not whole; and whether its
    /// part behind the point is one half or more.
    fn whole_part(self) -> (r: (u32, bool, bool))
        requires
            !self.is_nan(),
        ensures
            r.0 == if self.whole() >= 0x8000_0000 {
                0x8000_0000
            } else {
                self.whole()
            },
            r.1 == self.has_fraction(),
            r.2 == self.half_or_more(),
    {
        let mag = self.abs().bits;
        let e = mag / HIDDEN_BIT;
        let m = HIDDEN_BIT + mag % HIDDEN_BIT;
        if e < 127 {
            proof {
                lemma_whole_of_small(self);
            }
            (0, mag != 0, e == 126)
        } else if e >= 158 {
            proof {
                lemma_whole_of_huge(self);
                lemma_whole_of_large(self);
            }
            (0x8000_0000, false, false)
        } else if e >= 150 {
            let k = power_of_two(e - 150);
            proof {
                lemma_whole_of_large(self);
                lemma2_to64();
                if e - 150 < 7 {
                    lemma_pow2_strictly_increases((e - 150) as nat, 7);
                }
                lemma_mul_inequality(k as int, 0x80, m as int);
                lemma_mul_is_commutative(m as int, k as int);
                lemma_mul_strict_inequality(m as int, 0x100_0000, 0x80);
                lemma_mul_is_commutative(m as int, 0x80);
                assert(0x100_0000 * 0x80 == 0x8000_0000) by (nonlinear_arith);
            }
            (m * k, false, false)
        } else {
            let d = power_of_two(150 - e);
            proof {
                lemma_whole_of_medium(self);
                lemma_half_of_medium(self);
            }
            let rest = m % d;
            (m / d, rest != 0, rest >= d - rest)
        }
    }

    /// The number as a 32-bit integer, cut off towards zero.
    pub fn to_i32(self) -> (r: i32)
        ensures
            r == self.to_i32_spec(),
    {
        if self.check_nan() {
            return 0;
        }
        let (whole, _, _) = self.whole_part();
        if self.bits >= SIGN_BIT {
            if whole >= 0x8000_0000 {
                i32::MIN
            } else {
                -(whole as i32)
            }
        } else {
            if whole >= 0x8000_0000 {
                i32::MAX
            } else {
                whole as i32
            }
        }
    }

    /// The greatest whole number not above the number, as a 32-bit
    /// integer.
    pub fn floor_to_i32(self) -> (r: i32)
        ensures
            r == self.floor_to_i32_spec(),
    {
        if self.check_nan() {
            return 0;
        }
        let (whole, fraction, _) = self.whole_part();
        if self.bits >= SIGN_BIT {
            if whole >= 0x8000_0000 {
                i32::MIN
            } else if fraction {
                -(whole as i32) - 1
            } else {
                -(whole as i32)
            }
        } else {
            if whole >= 0x8000_0000 {
                i32::MAX
            } else {
                whole as i32
            }
        }
    }

    /// The number as the value of a colour channel, from 0 to 255: the
    /// nearest whole number, 0 for whatever lies below 0 or is not a number,
    /// and 255 for whatever lies above 255.
    pub fn to_byte(self) -> (r: u8)
        ensures
            r == self.to_byte_spec(),
    {
        if self.check_nan() || self.bits >= SIGN_BIT {
            return 0;
        }
        let (whole, _, half) = self.whole_part();
        if whole >= 255 {
            255
        } else if half {
            (whole + 1) as u8
        } else {
            whole as u8
        }
    }
}

impl Scalar {
    /// The scalar with the value `n`.
    pub fn from_byte(n: u8) -> (r: Scalar)
        ensures
            !r.negative(),
            !r.is_nan(),
            r.units() == n * pow2(149),
            r.whole() == n,
            !r.has_fraction(),
            r.to_byte_spec() == n,
    {
        if n == 0 {
            let zero = Scalar::zero();
            proof {
                lemma_whole_of_small(zero);
                assert(zero.units() == 0);
                assert(zero.exponent() == 0);
            }
            return zero;
        }
        let mut p: u32 = 0;
        let mut top: u32 = 1;
        proof {
            lemma2_to64();
        }
        while p < 7 && top * 2 <= n as u32
            invariant
                p <= 7,
                top == pow2(p as nat),
                top <= n,
                top <= 255,
            decreases 7 - p,
        {
            proof {
                lemma_pow2_unfold((p + 1) as nat);
            }
            top = top * 2;
            p = p + 1;
        }
        let scale = power_of_two(23 - p);
        proof {
            lemma2_to64();
            lemma_pow2_adds(p as nat, (23 - p) as nat);
            lemma_pow2_unfold((p + 1) as nat);
            assert(top * scale == HIDDEN_BIT);
            assert(n < 2 * top);
            assert((n - top) * scale < top * scale) by (nonlinear_arith)
                requires
                    n - top < top,
                    scale > 0,
            ;
            assert((n - top) * scale >= 0) by (nonlinear_arith)
                requires
                    n - top >= 0,
                    scale > 0,
            ;
        }
        let frac = (n as u32 - top) * scale;
        let r = Scalar { bits: (127 + p) * HIDDEN_BIT + frac };
        proof {
            let e = 127 + p;
            assert(r.magnitude() == e * HIDDEN_BIT + frac);
            assert(r.exponent() == e);
            assert(r.fraction() == frac);
            assert(HIDDEN_BIT + frac == n * scale) by (nonlinear_arith)
                requires
                    top * scale == HIDDEN_BIT,
                    frac == (n - top) * scale,
            ;
            lemma_pow2_adds((23 - p) as nat, (126 + p) as nat);
            let hi = pow2((126 + p) as nat) as int;
            assert(r.units() == (n * scale) * hi);
            lemma_mul_is_associative(n as int, scale as int, hi);
            assert(r.units() == n * pow2(149));
            lemma_pow2_pos(149);
            lemma_mul_is_commutative(n as int, pow2(149) as int);
            lemma_div_multiples_vanish(n as int, pow2(149) as int);
            lemma_mod_multiples_basic(n as int, pow2(149) as int);
            lemma_pow2_pos(148);
        }
        r
    }
}

/// Of two magnitudes the greater pattern is the greater number: the order
/// of the patterns is the order of the values that they stand for.
pub proof fn lemma_magnitude_orders_units(a: Scalar, b: Scalar)
    requires
        a.magnitude() < b.magnitude(),
    ensures
        a.units() < b.units(),
{
    let ea = a.exponent();
    let eb = b.exponent();
    let fa = a.fraction();
    let fb = b.fraction();
    lemma2_to64();
    assert(ea <= eb);
    if eb == 0 {
    } else if ea == eb {
        let k = pow2((ea - 1) as nat) as int;
        lemma_pow2_pos((ea - 1) as nat);
        lemma_mul_strict_inequality(HIDDEN_BIT + fa, HIDDEN_BIT + fb, k);
    } else {
        let kb = pow2((eb - 1) as nat) as int;
        lemma_pow2_pos((eb - 1) as nat);
        lemma_mul_inequality(HIDDEN_BIT as int, HIDDEN_BIT + fb, kb);
        if ea == 0 {
            assert(a.units() < HIDDEN_BIT);
            lemma_mul_inequality(1, kb, HIDDEN_BIT as int);
            lemma_mul_is_commutative(kb, HIDDEN_BIT as int);
        } else {
            let ka = pow2((ea - 1) as nat) as int;
            lemma_pow2_pos((ea - 1) as nat);
            lemma_pow2_unfold(ea as nat);
            if ea < eb - 1 {
                lemma_pow2_strictly_increases(ea as nat, (eb - 1) as nat);
            }
            lemma_mul_strict_inequality(HIDDEN_BIT + fa, 2 * HIDDEN_BIT, ka);
            assert((2 * HIDDEN_BIT) * ka == HIDDEN_BIT * (2 * ka)) by (nonlinear_arith);
            lemma_mul_inequality(2 * ka, kb, HIDDEN_BIT as int);
            lemma_mul_is_commutative(2 * ka, HIDDEN_BIT as int);
            lemma_mul_is_commutative(kb, HIDDEN_BIT as int);
        }
    }
}

impl Scalar {
    /// The value of the number, counted in units of 2 to the power -149:
    /// [`Scalar::units`] with the sign of the number.
    pub open spec fn signed_units(self) -> int {
        if self.negative() {
            -self.units()
        } else {
            self.units()
        }
    }
}

/// The comparisons of scalars are the comparisons of the values that the
/// patterns stand for: of two numbers the one with the smaller value is the
/// lesser, and the two zeros are the same number.
pub proof fn lemma_order_is_numeric(a: Scalar, b: Scalar)
    requires
        !a.is_nan(),
        !b.is_nan(),
    ensures
        a.lt_spec(b) <==> a.signed_units() < b.signed_units(),
        a.le_spec(b) <==> a.signed_units() <= b.signed_units(),
        a.same_spec(b) <==> a.signed_units() == b.signed_units(),
{
    let ma = Scalar { bits: a.magnitude() as u32 };
    let mb = Scalar { bits: b.magnitude() as u32 };
    assert(ma.magnitude() == a.magnitude() && mb.magnitude() == b.magnitude());
    assert(ma.units() == a.units() && mb.units() == b.units());
    if a.magnitude() < b.magnitude() {
        lemma_magnitude_orders_units(ma, mb);
    } else if b.magnitude() < a.magnitude() {
        lemma_magnitude_orders_units(mb, ma);
    } else {
        assert(ma == mb);
    }
    let zero = Scalar { bits: 0 };
    assert(zero.units() == 0);
    if a.magnitude() > 0 {
        lemma_magnitude_orders_units(zero, ma);
    } else {
        assert(ma == zero);
    }
    if b.magnitude() > 0 {
        lemma_magnitude_orders_units(zero, mb);
    } else {
        assert(mb == zero);
    }
}

} // verus!
