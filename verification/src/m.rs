//! The symbolic big-M cost value: a linear form `m_coeff * M + constant`,
//! where `M` stands for a fixed but unspecified constant larger than any
//! finite value the constant term can take. Values compare by `m_coeff`
//! first and by `constant` only on equal `m_coeff`, so `M` dominates every
//! finite adjustment.

use vstd::prelude::*;
use vstd::string::StringExecFns;
use core::cmp::Ordering;
use crate::{Fraction, FracError};
use crate::rat::{
    Rat, rat_wf, rat_zero, rat_one, rat_neg, rat_add, rat_sub, rat_mul, rat_div, rat_lt, fits64,
    lemma_canonical_unique, lemma_rat_lt_trans,
};
use crate::text::frac_str;

verus! {

/// A big-M value in the specification world: the coefficient of `M` and the
/// constant term, as mathematical rationals.
pub struct MV {
    pub m: Rat,
    pub c: Rat,
}

pub open spec fn mv_wf(v: MV) -> bool {
    &&& rat_wf(v.m)
    &&& rat_wf(v.c)
}

pub open spec fn mv_zero() -> MV {
    MV { m: rat_zero(), c: rat_zero() }
}

/// The order on big-M values: the `M` coefficient decides, and the constant
/// term decides only between equal coefficients.
pub open spec fn mv_lt(a: MV, b: MV) -> bool {
    rat_lt(a.m, b.m) || (a.m == b.m && rat_lt(a.c, b.c))
}

pub open spec fn mv_le(a: MV, b: MV) -> bool {
    mv_lt(a, b) || a == b
}

pub open spec fn mv_add(a: MV, b: MV) -> MV {
    MV { m: rat_add(a.m, b.m), c: rat_add(a.c, b.c) }
}

pub open spec fn mv_sub(a: MV, b: MV) -> MV {
    MV { m: rat_sub(a.m, b.m), c: rat_sub(a.c, b.c) }
}

pub open spec fn mv_scale(a: MV, r: Rat) -> MV {
    MV { m: rat_mul(a.m, r), c: rat_mul(a.c, r) }
}

pub open spec fn mv_div(a: MV, r: Rat) -> MV {
    MV { m: rat_div(a.m, r), c: rat_div(a.c, r) }
}

pub open spec fn mv_neg(a: MV) -> MV {
    MV { m: rat_neg(a.m), c: rat_neg(a.c) }
}

/// Whether both components of a big-M value fit the 64-bit representation.
pub open spec fn mv_fits(v: MV) -> bool {
    fits64(v.m) && fits64(v.c)
}

pub open spec fn mv_add_checked(a: MV, b: MV) -> Option<MV> {
    if mv_fits(mv_add(a, b)) {
        Some(mv_add(a, b))
    } else {
        None
    }
}

pub open spec fn mv_sub_checked(a: MV, b: MV) -> Option<MV> {
    if mv_fits(mv_sub(a, b)) {
        Some(mv_sub(a, b))
    } else {
        None
    }
}

pub open spec fn mv_scale_checked(a: MV, r: Rat) -> Option<MV> {
    if mv_fits(mv_scale(a, r)) {
        Some(mv_scale(a, r))
    } else {
        None
    }
}

/// Checked componentwise division: `None` both on a zero divisor and on an
/// unrepresentable component.
pub open spec fn mv_div_checked(a: MV, r: Rat) -> Option<MV> {
    if r.n != 0 && mv_fits(mv_div(a, r)) {
        Some(mv_div(a, r))
    } else {
        None
    }
}

/// A symbolic cost value `m_coeff * M + constant` over exact rationals.
#[derive(Debug, Clone, Copy, PartialEq, Eq, Structural)]
pub struct M {
    pub m_coeff: Fraction,
    pub constant: Fraction,
}

impl View for M {
    type V = MV;

    open spec fn view(&self) -> MV {
        MV { m: self.m_coeff@, c: self.constant@ }
    }
}

impl M {
    pub fn new(m_coeff: Fraction, constant: Fraction) -> (r: M)
        ensures
            r@ == (MV { m: m_coeff@, c: constant@ }),
    {
        M { m_coeff, constant }
    }

    /// The zero cost: no `M` part, zero constant.
    pub fn zero() -> (r: M)
        ensures
            r@ == mv_zero(),
    {
        M { m_coeff: Fraction::zero(), constant: Fraction::zero() }
    }

    /// Componentwise sum; fails only on 64-bit overflow of a reduced
    /// component.
    pub fn add(self, rhs: M) -> (r: Result<M, FracError>)
        ensures
            mv_fits(mv_add(self@, rhs@)) ==> (r matches Ok(v) && v@ == mv_add(self@, rhs@)),
            !mv_fits(mv_add(self@, rhs@)) ==> r == Err::<M, FracError>(FracError::Overflow),
    {
        let m = match self.m_coeff.add(rhs.m_coeff) {
            Ok(v) => v,
            Err(e) => {
                return Err(e);
            },
        };
        let c = match self.constant.add(rhs.constant) {
            Ok(v) => v,
            Err(e) => {
                return Err(e);
            },
        };
        Ok(M { m_coeff: m, constant: c })
    }

    /// Componentwise difference; fails only on 64-bit overflow of a reduced
    /// component.
    pub fn sub(self, rhs: M) -> (r: Result<M, FracError>)
        ensures
            mv_fits(mv_sub(self@, rhs@)) ==> (r matches Ok(v) && v@ == mv_sub(self@, rhs@)),
            !mv_fits(mv_sub(self@, rhs@)) ==> r == Err::<M, FracError>(FracError::Overflow),
    {
        let m = match self.m_coeff.sub(rhs.m_coeff) {
            Ok(v) => v,
            Err(e) => {
                return Err(e);
            },
        };
        let c = match self.constant.sub(rhs.constant) {
            Ok(v) => v,
            Err(e) => {
                return Err(e);
            },
        };
        Ok(M { m_coeff: m, constant: c })
    }

    /// Multiplies both components by a plain rational scalar.
    pub fn scale(self, rhs: Fraction) -> (r: Result<M, FracError>)
        ensures
            mv_fits(mv_scale(self@, rhs@)) ==> (r matches Ok(v) && v@ == mv_scale(self@, rhs@)),
            !mv_fits(mv_scale(self@, rhs@)) ==> r == Err::<M, FracError>(FracError::Overflow),
    {
        let m = match self.m_coeff.mul(rhs) {
            Ok(v) => v,
            Err(e) => {
                return Err(e);
            },
        };
        let c = match self.constant.mul(rhs) {
            Ok(v) => v,
            Err(e) => {
                return Err(e);
            },
        };
        Ok(M { m_coeff: m, constant: c })
    }

    /// Divides both components by a plain rational scalar; fails with
    /// `DivisionByZero` on a zero divisor.
    pub fn divide(self, rhs: Fraction) -> (r: Result<M, FracError>)
        ensures
            rhs@.n == 0 ==> r == Err::<M, FracError>(FracError::DivisionByZero),
            rhs@.n != 0 && mv_fits(mv_div(self@, rhs@)) ==> (r matches Ok(v) && v@ == mv_div(
                self@,
                rhs@,
            )),
            rhs@.n != 0 && !mv_fits(mv_div(self@, rhs@)) ==> r == Err::<M, FracError>(
                FracError::Overflow,
            ),
    {
        if rhs.is_zero() {
            return Err(FracError::DivisionByZero);
        }
        let m = match self.m_coeff.div(rhs) {
            Ok(v) => v,
            Err(e) => {
                return Err(e);
            },
        };
        let c = match self.constant.div(rhs) {
            Ok(v) => v,
            Err(e) => {
                return Err(e);
            },
        };
        Ok(M { m_coeff: m, constant: c })
    }

    /// Componentwise negation.
    pub fn negate(self) -> (r: Result<M, FracError>)
        ensures
            mv_fits(mv_neg(self@)) ==> (r matches Ok(v) && v@ == mv_neg(self@)),
            !mv_fits(mv_neg(self@)) ==> r == Err::<M, FracError>(FracError::Overflow),
    {
        let m = match self.m_coeff.negate() {
            Ok(v) => v,
            Err(e) => {
                return Err(e);
            },
        };
        let c = match self.constant.negate() {
            Ok(v) => v,
            Err(e) => {
                return Err(e);
            },
        };
        Ok(M { m_coeff: m, constant: c })
    }

    /// The lexicographic order: `m_coeff` decides, `constant` only breaks
    /// ties.
    pub fn compare(&self, rhs: &M) -> (o: Ordering)
        ensures
            o == Ordering::Less <==> mv_lt(self@, rhs@),
            o == Ordering::Greater <==> mv_lt(rhs@, self@),
            o == Ordering::Equal <==> self@ == rhs@,
    {
        match self.m_coeff.compare(&rhs.m_coeff) {
            Ordering::Equal => self.constant.compare(&rhs.constant),
            o => o,
        }
    }

    /// Whether both components are zero.
    pub fn is_zero(&self) -> (b: bool)
        ensures
            b <==> self@ == mv_zero(),
    {
        self.m_coeff.is_zero() && self.constant.is_zero()
    }

    /// Whether this value is strictly below the zero cost.
    pub fn is_negative(&self) -> (b: bool)
        ensures
            b <==> mv_lt(self@, mv_zero()),
    {
        if self.m_coeff.is_negative() {
            true
        } else if self.m_coeff.is_zero() {
            self.constant.is_negative()
        } else {
            false
        }
    }

    /// This value as text: a plain constant prints alone; a non-zero `M`
    /// part prints as `<coeff>M<sign><constant>`, with coefficients one and
    /// minus one elided to `M` and `-M`, and a zero constant dropped.
    pub fn format(&self) -> (s: String)
        ensures
            s@ == m_str(self@),
    {
        if self.m_coeff.is_zero() {
            return self.constant.to_display_string();
        }
        let one = Fraction::one();
        let neg_one = Fraction::from_int(-1);
        let mut s = if self.m_coeff == one {
            proof {
                reveal_strlit("M");
            }
            String::from_str("M")
        } else if self.m_coeff == neg_one {
            proof {
                reveal_strlit("-M");
            }
            String::from_str("-M")
        } else {
            proof {
                reveal_strlit("M");
            }
            let mut t = self.m_coeff.to_display_string();
            t.append("M");
            t
        };
        if self.constant.is_zero() {
            proof {
                assert(s@ =~= m_str(self@));
            }
            return s;
        }
        if self.constant.is_positive() {
            proof {
                reveal_strlit("+");
            }
            s.append("+");
        }
        let c = self.constant.to_display_string();
        s.append(c.as_str());
        proof {
            assert(s@ =~= m_str(self@));
        }
        s
    }
}

/// The text of a big-M value.
pub open spec fn m_str(v: MV) -> Seq<char> {
    if v.m == rat_zero() {
        frac_str(v.c)
    } else {
        let m_part = if v.m == rat_one() {
            seq!['M']
        } else if v.m == rat_neg(rat_one()) {
            seq!['-', 'M']
        } else {
            frac_str(v.m) + seq!['M']
        };
        if v.c == rat_zero() {
            m_part
        } else if rat_lt(rat_zero(), v.c) {
            m_part + seq!['+'] + frac_str(v.c)
        } else {
            m_part + frac_str(v.c)
        }
    }
}

/// The big-M order is a strict total order: exactly one of `a < b`,
/// `b < a`, `a == b` holds of canonical values.
pub proof fn lemma_mv_order_total(a: MV, b: MV)
    requires
        mv_wf(a),
        mv_wf(b),
    ensures
        mv_lt(a, b) || mv_lt(b, a) || a == b,
        !(mv_lt(a, b) && mv_lt(b, a)),
        !mv_lt(a, a),
{
    crate::rat::lemma_rat_lt_total(a.m, b.m);
    crate::rat::lemma_rat_lt_total(a.c, b.c);
    if !rat_lt(a.m, b.m) && !rat_lt(b.m, a.m) {
        lemma_canonical_unique(a.m, b.m);
        if !rat_lt(a.c, b.c) && !rat_lt(b.c, a.c) {
            lemma_canonical_unique(a.c, b.c);
        }
    }
}

/// The big-M order is transitive.
pub proof fn lemma_mv_order_trans(a: MV, b: MV, c: MV)
    requires
        mv_wf(a),
        mv_wf(b),
        mv_wf(c),
        mv_lt(a, b),
        mv_lt(b, c),
    ensures
        mv_lt(a, c),
{
    if rat_lt(a.m, b.m) && rat_lt(b.m, c.m) {
        lemma_rat_lt_trans(a.m, b.m, c.m);
    } else if rat_lt(a.c, b.c) && rat_lt(b.c, c.c) && a.m == b.m && b.m == c.m {
        lemma_rat_lt_trans(a.c, b.c, c.c);
    }
}

/// Comparison ignores the constant term whenever the `M` coefficients
/// differ: between canonical values with distinct coefficients, the order is
/// exactly the order of the coefficients, whatever the constants are.
pub proof fn lemma_mv_ignores_constant(a: MV, b: MV)
    requires
        mv_wf(a),
        mv_wf(b),
        a.m != b.m,
    ensures
        mv_lt(a, b) <==> rat_lt(a.m, b.m),
        mv_lt(b, a) <==> rat_lt(b.m, a.m),
        mv_lt(a, b) || mv_lt(b, a),
{
    crate::rat::lemma_rat_lt_total(a.m, b.m);
    if !rat_lt(a.m, b.m) && !rat_lt(b.m, a.m) {
        lemma_canonical_unique(a.m, b.m);
    }
}

} // verus!
