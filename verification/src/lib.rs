//! An exact-arithmetic simplex solver for linear programs.
//!
//! The solver works on rational numbers kept in lowest terms ([`Fraction`]),
//! extended with a symbolic big-M cost form so that the penalty for
//! artificial variables never loses precision to a hand-picked large
//! constant. The tableau engine owns the constraint matrix and all solver
//! state, and exposes setup, iteration, pivoting and the two-phase strategy
//! for finding an initial feasible basis.

use vstd::prelude::*;

pub mod m;
pub mod rat;
pub mod tableau;
pub mod tableau_data;
pub mod text;

use core::cmp::Ordering;
use crate::rat::{
    Rat, rat_wf, norm_frac, rat_zero, rat_one, rat_add, rat_sub, rat_mul, rat_div, rat_neg,
    rat_lt, fits64, lemma_gcd_quotients, lemma_gcd_one, lemma_norm_frac,
};

verus! {

/// The greatest common divisor of two naturals by Euclid's algorithm,
/// the mathematical reference for both the executable `gcd` and the
/// reduced-fraction invariant.
pub open spec fn gcd_nat(a: nat, b: nat) -> nat
    decreases a,
{
    if a == 0 {
        b
    } else {
        gcd_nat(b % a, a)
    }
}

/// The greatest common divisor of the absolute values of two machine
/// integers. `i64::MIN` is excluded so that the absolute values fit in the
/// result type.
pub fn gcd(a: i64, b: i64) -> (g: i64)
    requires
        a != i64::MIN,
        b != i64::MIN,
    ensures
        g == gcd_nat(vstd::math::abs(a as int), vstd::math::abs(b as int)),
{
    let mut x: u64 = if a < 0 {
        (-a) as u64
    } else {
        a as u64
    };
    let mut y: u64 = if b < 0 {
        (-b) as u64
    } else {
        b as u64
    };
    while x != 0
        invariant
            x <= i64::MAX,
            y <= i64::MAX,
            gcd_nat(x as nat, y as nat) == gcd_nat(vstd::math::abs(a as int), vstd::math::abs(b as int)),
        decreases x,
    {
        let r = y % x;
        y = x;
        x = r;
    }
    y as i64
}

/// How an exact-arithmetic operation can fail: a zero denominator or
/// divisor, or a reduced result whose parts do not fit in 64 bits.
#[derive(Debug, Clone, Copy, PartialEq, Eq, Structural)]
pub enum FracError {
    DivisionByZero,
    Overflow,
}

/// An exact rational number: signed numerator, positive denominator, always
/// stored in lowest terms.
#[derive(Debug, Clone, Copy, PartialEq, Eq, Structural)]
pub struct Fraction {
    n: i64,
    d: i64,
}

impl View for Fraction {
    type V = Rat;

    closed spec fn view(&self) -> Rat {
        Rat { n: self.n as int, d: self.d as int }
    }
}

impl Fraction {
    /// Every `Fraction` is in canonical form: `d > 0` and
    /// `gcd(|n|, d) == 1`.
    #[verifier::type_invariant]
    pub closed spec fn inv(self) -> bool {
        rat_wf(self@)
    }

    /// The fraction zero, `0/1`.
    pub fn zero() -> (r: Fraction)
        ensures
            r@ == rat_zero(),
    {
        proof {
            lemma_gcd_one(0);
        }
        Fraction { n: 0, d: 1 }
    }

    /// The fraction one, `1/1`.
    pub fn one() -> (r: Fraction)
        ensures
            r@ == rat_one(),
    {
        proof {
            lemma_gcd_one(1);
        }
        Fraction { n: 1, d: 1 }
    }

    /// The whole number `n`, as the fraction `n/1`.
    pub fn from_int(n: i64) -> (r: Fraction)
        ensures
            r@ == (Rat { n: n as int, d: 1 }),
    {
        proof {
            lemma_gcd_one(vstd::math::abs(n as int));
        }
        Fraction { n, d: 1 }
    }

    /// The stored numerator.
    pub fn numerator(&self) -> (n: i64)
        ensures
            n == self@.n,
    {
        self.n
    }

    /// The stored denominator; always positive.
    pub fn denominator(&self) -> (d: i64)
        ensures
            d == self@.d,
            d >= 1,
    {
        proof {
            use_type_invariant(self);
        }
        self.d
    }

    /// Whether this fraction is the rational zero.
    pub fn is_zero(&self) -> (b: bool)
        ensures
            b <==> self@.n == 0,
            b <==> self@ == rat_zero(),
    {
        proof {
            use_type_invariant(self);
            if self.n == 0 {
                assert(gcd_nat(vstd::math::abs(0int), self@.d as nat) == self@.d as nat);
            }
        }
        self.n == 0
    }

    /// Whether this fraction is strictly negative.
    pub fn is_negative(&self) -> (b: bool)
        ensures
            b <==> self@.n < 0,
            b <==> rat_lt(self@, rat_zero()),
    {
        proof {
            use_type_invariant(self);
        }
        self.n < 0
    }

    /// Whether this fraction is strictly positive.
    pub fn is_positive(&self) -> (b: bool)
        ensures
            b <==> self@.n > 0,
            b <==> rat_lt(rat_zero(), self@),
    {
        proof {
            use_type_invariant(self);
        }
        self.n > 0
    }

    /// Builds the canonical fraction `n/d`; fails with `DivisionByZero` when
    /// `d == 0`, and with `Overflow` when the reduced parts do not fit in 64
    /// bits (only possible for `n == i64::MIN` with a negative odd `d`).
    pub fn new(n: i64, d: i64) -> (r: Result<Fraction, FracError>)
        ensures
            d == 0 ==> r == Err::<Fraction, FracError>(FracError::DivisionByZero),
            d != 0 && fits64(norm_frac(n as int, d as int)) ==> (r matches Ok(f)
                && f@ == norm_frac(n as int, d as int) && f@.d >= 1 && gcd_nat(
                vstd::math::abs(f@.n),
                f@.d as nat,
            ) == 1),
            d != 0 && !fits64(norm_frac(n as int, d as int)) ==> r == Err::<Fraction, FracError>(
                FracError::Overflow,
            ),
    {
        Fraction::reduce(n, d)
    }

    /// Reduces `n/d` to canonical form: the denominator becomes positive and
    /// both parts are divided by their greatest common divisor.
    pub fn reduce(n: i64, d: i64) -> (r: Result<Fraction, FracError>)
        ensures
            d == 0 ==> r == Err::<Fraction, FracError>(FracError::DivisionByZero),
            d != 0 && fits64(norm_frac(n as int, d as int)) ==> (r matches Ok(f)
                && f@ == norm_frac(n as int, d as int) && f@.d >= 1 && gcd_nat(
                vstd::math::abs(f@.n),
                f@.d as nat,
            ) == 1),
            d != 0 && !fits64(norm_frac(n as int, d as int)) ==> r == Err::<Fraction, FracError>(
                FracError::Overflow,
            ),
    {
        if d == 0 {
            return Err(FracError::DivisionByZero);
        }
        proof {
            lemma_norm_frac(n as int, d as int);
        }
        Fraction::reduce128(n as i128, d as i128)
    }

    /// Reduces a wide intermediate `num/den` to a canonical 64-bit fraction.
    fn reduce128(num: i128, den: i128) -> (r: Result<Fraction, FracError>)
        requires
            den != 0,
            num > i128::MIN,
            den > i128::MIN,
        ensures
            fits64(norm_frac(num as int, den as int)) ==> (r matches Ok(f)
                && f@ == norm_frac(num as int, den as int)),
            !fits64(norm_frac(num as int, den as int)) ==> r == Err::<Fraction, FracError>(
                FracError::Overflow,
            ),
    {
        let ghost target = norm_frac(num as int, den as int);
        let neg: bool = (num < 0) != (den < 0);
        let na: u128 = if num < 0 {
            (-num) as u128
        } else {
            num as u128
        };
        let da: u128 = if den < 0 {
            (-den) as u128
        } else {
            den as u128
        };
        proof {
            lemma_gcd_quotients(na as nat, da as nat);
        }
        let g = gcd_u128(na, da);
        let nn: u128 = na / g;
        let dd: u128 = da / g;
        proof {
            assert(target.d == dd && vstd::math::abs(target.n) == nn as nat);
            assert(neg ==> target.n == -(nn as int));
            assert(!neg ==> target.n == nn as int);
            assert(rat_wf(target)) by {
                lemma_norm_frac(num as int, den as int);
            }
        }
        if dd > 0x7fff_ffff_ffff_ffffu128 {
            return Err(FracError::Overflow);
        }
        if neg {
            if nn > 0x8000_0000_0000_0000u128 {
                return Err(FracError::Overflow);
            }
            if nn == 0x8000_0000_0000_0000u128 {
                return Ok(Fraction { n: i64::MIN, d: dd as i64 });
            }
            Ok(Fraction { n: -(nn as i64), d: dd as i64 })
        } else {
            if nn > 0x7fff_ffff_ffff_ffffu128 {
                return Err(FracError::Overflow);
            }
            Ok(Fraction { n: nn as i64, d: dd as i64 })
        }
    }

    /// The sum of two fractions, reduced; fails only on 64-bit overflow of
    /// the reduced result.
    pub fn add(self, rhs: Fraction) -> (r: Result<Fraction, FracError>)
        ensures
            fits64(rat_add(self@, rhs@)) ==> (r matches Ok(f) && f@ == rat_add(self@, rhs@)),
            !fits64(rat_add(self@, rhs@)) ==> r == Err::<Fraction, FracError>(FracError::Overflow),
    {
        proof {
            use_type_invariant(self);
            use_type_invariant(rhs);
            lemma_prod_range(self.n as int, rhs.d as int);
            lemma_prod_range(rhs.n as int, self.d as int);
            lemma_prod_range(self.d as int, rhs.d as int);
            lemma_pos_prod(self.d as int, rhs.d as int);
        }
        let num: i128 = (self.n as i128) * (rhs.d as i128) + (rhs.n as i128) * (self.d as i128);
        let den: i128 = (self.d as i128) * (rhs.d as i128);
        Fraction::reduce128(num, den)
    }

    /// The difference of two fractions, reduced; fails only on 64-bit
    /// overflow of the reduced result.
    pub fn sub(self, rhs: Fraction) -> (r: Result<Fraction, FracError>)
        ensures
            fits64(rat_sub(self@, rhs@)) ==> (r matches Ok(f) && f@ == rat_sub(self@, rhs@)),
            !fits64(rat_sub(self@, rhs@)) ==> r == Err::<Fraction, FracError>(FracError::Overflow),
    {
        proof {
            use_type_invariant(self);
            use_type_invariant(rhs);
            lemma_prod_range(self.n as int, rhs.d as int);
            lemma_prod_range(rhs.n as int, self.d as int);
            lemma_prod_range(self.d as int, rhs.d as int);
            lemma_pos_prod(self.d as int, rhs.d as int);
        }
        let num: i128 = (self.n as i128) * (rhs.d as i128) - (rhs.n as i128) * (self.d as i128);
        let den: i128 = (self.d as i128) * (rhs.d as i128);
        Fraction::reduce128(num, den)
    }

    /// The product of two fractions, reduced; fails only on 64-bit overflow
    /// of the reduced result.
    pub fn mul(self, rhs: Fraction) -> (r: Result<Fraction, FracError>)
        ensures
            fits64(rat_mul(self@, rhs@)) ==> (r matches Ok(f) && f@ == rat_mul(self@, rhs@)),
            !fits64(rat_mul(self@, rhs@)) ==> r == Err::<Fraction, FracError>(FracError::Overflow),
    {
        proof {
            use_type_invariant(self);
            use_type_invariant(rhs);
            lemma_prod_range_nn(self.n as int, rhs.n as int);
            lemma_prod_range(self.d as int, rhs.d as int);
            lemma_pos_prod(self.d as int, rhs.d as int);
        }
        let num: i128 = (self.n as i128) * (rhs.n as i128);
        let den: i128 = (self.d as i128) * (rhs.d as i128);
        Fraction::reduce128(num, den)
    }

    /// The quotient of two fractions, reduced; fails with `DivisionByZero`
    /// when the divisor is zero, and with `Overflow` when the reduced result
    /// does not fit in 64 bits.
    pub fn div(self, rhs: Fraction) -> (r: Result<Fraction, FracError>)
        ensures
            rhs@.n == 0 ==> r == Err::<Fraction, FracError>(FracError::DivisionByZero),
            rhs@.n != 0 && fits64(rat_div(self@, rhs@)) ==> (r matches Ok(f) && f@ == rat_div(
                self@,
                rhs@,
            )),
            rhs@.n != 0 && !fits64(rat_div(self@, rhs@)) ==> r == Err::<Fraction, FracError>(
                FracError::Overflow,
            ),
    {
        proof {
            use_type_invariant(self);
            use_type_invariant(rhs);
            lemma_prod_range(self.n as int, rhs.d as int);
            lemma_prod_range(rhs.n as int, self.d as int);
        }
        if rhs.n == 0 {
            return Err(FracError::DivisionByZero);
        }
        let num: i128 = (self.n as i128) * (rhs.d as i128);
        let den: i128 = (self.d as i128) * (rhs.n as i128);
        proof {
            assert(den != 0) by (nonlinear_arith)
                requires
                    den == (self.d as int) * (rhs.n as int),
                    self.d >= 1,
                    rhs.n != 0,
            ;
        }
        Fraction::reduce128(num, den)
    }

    /// The negation; fails only when the numerator is `i64::MIN`, whose
    /// negation has no 64-bit representation.
    pub fn negate(self) -> (r: Result<Fraction, FracError>)
        ensures
            fits64(rat_neg(self@)) ==> (r matches Ok(f) && f@ == rat_neg(self@)),
            !fits64(rat_neg(self@)) ==> r == Err::<Fraction, FracError>(FracError::Overflow),
    {
        proof {
            use_type_invariant(self);
        }
        if self.n == i64::MIN {
            return Err(FracError::Overflow);
        }
        Ok(Fraction { n: -self.n, d: self.d })
    }

    /// The natural order on the rational line, by cross-multiplication.
    pub fn compare(&self, rhs: &Fraction) -> (o: Ordering)
        ensures
            o == Ordering::Less <==> rat_lt(self@, rhs@),
            o == Ordering::Greater <==> rat_lt(rhs@, self@),
            o == Ordering::Equal <==> self@.n * rhs@.d == rhs@.n * self@.d,
            o == Ordering::Equal <==> self@ == rhs@,
    {
        proof {
            use_type_invariant(self);
            use_type_invariant(rhs);
            lemma_prod_range(self.n as int, rhs.d as int);
            lemma_prod_range(rhs.n as int, self.d as int);
            if self@.n * rhs@.d == rhs@.n * self@.d {
                crate::rat::lemma_canonical_unique(self@, rhs@);
            }
        }
        let lhs: i128 = (self.n as i128) * (rhs.d as i128);
        let rhsv: i128 = (rhs.n as i128) * (self.d as i128);
        if lhs < rhsv {
            Ordering::Less
        } else if lhs == rhsv {
            Ordering::Equal
        } else {
            Ordering::Greater
        }
    }

    /// This fraction as the text `"n/d"`.
    pub fn to_display_string(&self) -> (s: String)
        ensures
            s@ == crate::text::frac_str(self@),
    {
        proof {
            use_type_invariant(self);
        }
        let mut s = crate::text::int_to_string(self.n);
        s.append("/");
        let t = crate::text::int_to_string(self.d);
        s.append(t.as_str());
        proof {
            reveal_strlit("/");
        }
        s
    }
}

impl PartialOrd for Fraction {
    fn partial_cmp(&self, other: &Fraction) -> (r: Option<Ordering>) {
        proof {
            use_type_invariant(self);
            use_type_invariant(other);
        }
        Some(self.compare(other))
    }
}

impl vstd::std_specs::cmp::PartialOrdSpecImpl for Fraction {
    open spec fn obeys_partial_cmp_spec() -> bool {
        true
    }

    open spec fn partial_cmp_spec(&self, other: &Fraction) -> Option<Ordering> {
        Some(
            if rat_lt(self@, other@) {
                Ordering::Less
            } else if rat_lt(other@, self@) {
                Ordering::Greater
            } else {
                Ordering::Equal
            },
        )
    }
}

impl From<i64> for Fraction {
    fn from(n: i64) -> (r: Fraction) {
        Fraction::from_int(n)
    }
}

impl vstd::std_specs::convert::FromSpecImpl<i64> for Fraction {
    closed spec fn obeys_from_spec() -> bool {
        true
    }

    closed spec fn from_spec(n: i64) -> Fraction {
        Fraction { n, d: 1 }
    }
}

/// The greatest common divisor of two wide unsigned intermediates.
fn gcd_u128(a: u128, b: u128) -> (g: u128)
    ensures
        g == gcd_nat(a as nat, b as nat),
{
    let mut x: u128 = a;
    let mut y: u128 = b;
    while x != 0
        invariant
            gcd_nat(x as nat, y as nat) == gcd_nat(a as nat, b as nat),
        decreases x,
    {
        let r = y % x;
        y = x;
        x = r;
    }
    y
}

/// The product of two positive integers is positive.
proof fn lemma_pos_prod(a: int, b: int)
    by (nonlinear_arith)
    requires
        a >= 1,
        b >= 1,
    ensures
        a * b >= 1,
{
}

/// The product of a 64-bit integer and a positive 64-bit integer stays well
/// inside the 128-bit range.
proof fn lemma_prod_range(n: int, d: int)
    by (nonlinear_arith)
    requires
        -0x8000_0000_0000_0000 <= n <= 0x7fff_ffff_ffff_ffff,
        1 <= d <= 0x7fff_ffff_ffff_ffff,
    ensures
        -0x3fffffffffffffff8000000000000000 <= n * d <= 0x3fffffffffffffff8000000000000000,
{
}

/// The product of two 64-bit integers stays well inside the 128-bit range.
proof fn lemma_prod_range_nn(a: int, b: int)
    by (nonlinear_arith)
    requires
        -0x8000_0000_0000_0000 <= a <= 0x7fff_ffff_ffff_ffff,
        -0x8000_0000_0000_0000 <= b <= 0x7fff_ffff_ffff_ffff,
    ensures
        -0x40000000000000000000000000000000 <= a * b <= 0x40000000000000000000000000000000,
{
}

} // verus!
