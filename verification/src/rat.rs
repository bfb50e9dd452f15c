//! The mathematical model of exact rational numbers.
//!
//! A rational is modelled as a pair of unbounded integers with a positive
//! denominator, kept in lowest terms. Every contract of the executable
//! arithmetic is stated against `norm_frac`, which maps an arbitrary
//! numerator/denominator pair to that canonical form, and against the
//! `..._checked` functions, which additionally say when a canonical result
//! fits in the machine representation.

use vstd::prelude::*;
use vstd::math::abs;
use vstd::arithmetic::div_mod::{
    lemma_fundamental_div_mod, lemma_add_mod_noop, lemma_sub_mod_noop, lemma_mul_mod_noop_left,
    lemma_mod_self_0, lemma_small_mod, lemma_mod_multiples_basic, lemma_div_nonincreasing, lemma_breakdown,
    lemma_div_by_self, lemma_div_multiples_vanish,
};
use crate::gcd_nat;

verus! {

/// A rational number in the specification world: numerator `n` and
/// denominator `d`, both unbounded integers.
pub struct Rat {
    pub n: int,
    pub d: int,
}

/// A rational value in canonical form: positive denominator, lowest terms.
pub open spec fn rat_wf(r: Rat) -> bool {
    &&& r.d >= 1
    &&& gcd_nat(abs(r.n), r.d as nat) == 1
}

/// The canonical form of the fraction `n / d`, for `d != 0`: the sign moves
/// to the numerator and both parts are divided by their greatest common
/// divisor.
pub open spec fn norm_frac(n: int, d: int) -> Rat {
    let neg = (n < 0) != (d < 0);
    let na = abs(n);
    let da = abs(d);
    let g = gcd_nat(na, da);
    if g == 0 {
        Rat { n: 0, d: 0 }
    } else {
        let nn = (na / g) as int;
        let dd = (da / g) as int;
        Rat { n: if neg { -nn } else { nn }, d: dd }
    }
}

pub open spec fn rat_zero() -> Rat {
    Rat { n: 0, d: 1 }
}

pub open spec fn rat_one() -> Rat {
    Rat { n: 1, d: 1 }
}

/// The sum of two rationals, in canonical form.
pub open spec fn rat_add(a: Rat, b: Rat) -> Rat {
    norm_frac(a.n * b.d + b.n * a.d, a.d * b.d)
}

/// The difference of two rationals, in canonical form.
pub open spec fn rat_sub(a: Rat, b: Rat) -> Rat {
    norm_frac(a.n * b.d - b.n * a.d, a.d * b.d)
}

/// The product of two rationals, in canonical form.
pub open spec fn rat_mul(a: Rat, b: Rat) -> Rat {
    norm_frac(a.n * b.n, a.d * b.d)
}

/// The quotient of two rationals, in canonical form; meaningful only for
/// `b.n != 0`.
pub open spec fn rat_div(a: Rat, b: Rat) -> Rat {
    norm_frac(a.n * b.d, a.d * b.n)
}

/// The negation of a rational; canonical form is preserved.
pub open spec fn rat_neg(a: Rat) -> Rat {
    Rat { n: -a.n, d: a.d }
}

/// The strict order on rationals with positive denominators, by
/// cross-multiplication.
pub open spec fn rat_lt(a: Rat, b: Rat) -> bool {
    a.n * b.d < b.n * a.d
}

pub open spec fn rat_le(a: Rat, b: Rat) -> bool {
    a.n * b.d <= b.n * a.d
}

/// Whether a canonical rational is representable with a signed 64-bit
/// numerator and denominator.
pub open spec fn fits64(r: Rat) -> bool {
    &&& i64::MIN <= r.n <= i64::MAX
    &&& 1 <= r.d <= i64::MAX
}

pub open spec fn rat_sub_checked(a: Rat, b: Rat) -> Option<Rat> {
    if fits64(rat_sub(a, b)) {
        Some(rat_sub(a, b))
    } else {
        None
    }
}

pub open spec fn rat_mul_checked(a: Rat, b: Rat) -> Option<Rat> {
    if fits64(rat_mul(a, b)) {
        Some(rat_mul(a, b))
    } else {
        None
    }
}

/// Checked division: `None` both on a zero divisor and on an unrepresentable
/// result.
pub open spec fn rat_div_checked(a: Rat, b: Rat) -> Option<Rat> {
    if b.n != 0 && fits64(rat_div(a, b)) {
        Some(rat_div(a, b))
    } else {
        None
    }
}

/// Euclid's algorithm computes a common divisor of its arguments, and the
/// result is zero exactly when both arguments are.
pub proof fn lemma_gcd_divides(a: nat, b: nat)
    ensures
        gcd_nat(a, b) == 0 <==> a == 0 && b == 0,
        gcd_nat(a, b) > 0 ==> a % gcd_nat(a, b) == 0,
        gcd_nat(a, b) > 0 ==> b % gcd_nat(a, b) == 0,
    decreases a,
{
    if a == 0 {
        if b > 0 {
            lemma_mod_self_0(b as int);
            lemma_small_mod(0, b);
        }
    } else {
        let r = b % a;
        lemma_gcd_divides(r, a);
        let g = gcd_nat(r, a);
        assert(g > 0);
        lemma_fundamental_div_mod(b as int, a as int);
        assert(b == a * (b as int / a as int) + r);
        lemma_mul_mod_noop_left(a as int, b as int / a as int, g as int);
        lemma_small_mod(0, g);
        assert((a * (b as int / a as int)) % (g as int) == 0);
        lemma_add_mod_noop(a * (b as int / a as int), r as int, g as int);
        assert(b as int % (g as int) == 0);
        assert(b % g == 0);
    }
}

/// Any common divisor of `a` and `b` divides their greatest common divisor.
pub proof fn lemma_gcd_greatest(a: nat, b: nat, d: nat)
    requires
        d > 0,
        a % d == 0,
        b % d == 0,
    ensures
        gcd_nat(a, b) % d == 0,
    decreases a,
{
    if a == 0 {
    } else {
        let r = b % a;
        lemma_fundamental_div_mod(b as int, a as int);
        assert(r == b - a * (b as int / a as int));
        lemma_mul_mod_noop_left(a as int, b as int / a as int, d as int);
        lemma_small_mod(0, d);
        assert((a * (b as int / a as int)) % (d as int) == 0);
        lemma_sub_mod_noop(b as int, a * (b as int / a as int), d as int);
        assert(r as int % (d as int) == 0);
        assert(r % d == 0);
        lemma_gcd_greatest(r, a, d);
    }
}

/// Dividing two numbers by their greatest common divisor leaves a coprime
/// pair; the quotients keep the originals' magnitudes as exact multiples.
pub proof fn lemma_gcd_quotients(a: nat, b: nat)
    requires
        b > 0,
    ensures
        gcd_nat(a, b) > 0,
        a % gcd_nat(a, b) == 0,
        b % gcd_nat(a, b) == 0,
        gcd_nat(a / gcd_nat(a, b), b / gcd_nat(a, b)) == 1,
        a == gcd_nat(a, b) * (a / gcd_nat(a, b)),
        b == gcd_nat(a, b) * (b / gcd_nat(a, b)),
        b / gcd_nat(a, b) >= 1,
        a / gcd_nat(a, b) <= a,
        b / gcd_nat(a, b) <= b,
{
    lemma_gcd_divides(a, b);
    let g = gcd_nat(a, b);
    assert(g > 0);
    let a2 = a / g;
    let b2 = b / g;
    lemma_fundamental_div_mod(a as int, g as int);
    lemma_fundamental_div_mod(b as int, g as int);
    assert(a == g * a2);
    assert(b == g * b2);
    assert(b2 >= 1) by {
        if b2 == 0 {
            assert(b == g * 0);
        }
    }
    lemma_div_nonincreasing(a as int, g as int);
    lemma_div_nonincreasing(b as int, g as int);
    let g2 = gcd_nat(a2, b2);
    lemma_gcd_divides(a2, b2);
    assert(g2 > 0);
    lemma_fundamental_div_mod(a2 as int, g2 as int);
    lemma_fundamental_div_mod(b2 as int, g2 as int);
    let k1 = a2 / g2;
    let k2 = b2 / g2;
    assert(a2 == g2 * k1);
    assert(b2 == g2 * k2);
    assert(a == (g * g2) * k1) by (nonlinear_arith)
        requires
            a == g * a2,
            a2 == g2 * k1,
    ;
    assert(b == (g * g2) * k2) by (nonlinear_arith)
        requires
            b == g * b2,
            b2 == g2 * k2,
    ;
    lemma_mod_multiples_basic(k1 as int, (g * g2) as int);
    lemma_mod_multiples_basic(k2 as int, (g * g2) as int);
    assert(a as int == (k1 as int) * ((g * g2) as int)) by (nonlinear_arith)
        requires
            a == (g * g2) * k1,
    ;
    assert(b as int == (k2 as int) * ((g * g2) as int)) by (nonlinear_arith)
        requires
            b == (g * g2) * k2,
    ;
    assert(a as int % ((g * g2) as int) == 0);
    assert(b as int % ((g * g2) as int) == 0);
    assert(a % (g * g2) == 0);
    assert(b % (g * g2) == 0);
    lemma_gcd_greatest(a, b, g * g2);
    assert(g % (g * g2) == 0);
    if g2 >= 2 {
        assert(g < g * g2) by (nonlinear_arith)
            requires
                g > 0,
                g2 >= 2,
        ;
        lemma_small_mod(g, g * g2);
        assert(g % (g * g2) == g);
        assert(false);
    }
}

/// The greatest common divisor with one is one.
pub proof fn lemma_gcd_one(a: nat)
    ensures
        gcd_nat(a, 1) == 1,
{
    if a == 0 {
    } else if a == 1 {
        assert(gcd_nat(1nat, 1nat) == gcd_nat((1nat % 1nat), 1nat));
    } else {
        lemma_small_mod(1, a);
        assert(gcd_nat(a, 1) == gcd_nat(1nat % a, a));
        assert(1nat % a == 1);
        assert(gcd_nat(1nat, a) == gcd_nat(a % 1nat, 1nat));
        assert(a as int % 1int == 0) by {
            lemma_mod_multiples_basic(a as int, 1int);
        }
        assert(a % 1nat == 0);
    }
}

/// Canonicalisation produces a well-formed rational of the same value, with
/// magnitudes no larger than the input's.
pub proof fn lemma_norm_frac(n: int, d: int)
    requires
        d != 0,
    ensures
        rat_wf(norm_frac(n, d)),
        abs(norm_frac(n, d).n) == abs(n) / gcd_nat(abs(n), abs(d)),
        norm_frac(n, d).d == abs(d) / gcd_nat(abs(n), abs(d)),
        abs(norm_frac(n, d).n) <= abs(n),
        norm_frac(n, d).d <= abs(d),
        norm_frac(n, d).n * d == n * norm_frac(n, d).d,
        norm_frac(n, d).n == 0 <==> n == 0,
{
    let na = abs(n);
    let da = abs(d);
    lemma_gcd_quotients(na, da);
    let g = gcd_nat(na, da);
    let nn = na / g;
    let dd = da / g;
    let r = norm_frac(n, d);
    assert(r.d == dd && abs(r.n) == nn);
    assert(rat_wf(r));
    assert(nn == 0 <==> na == 0) by {
        if nn == 0 {
            assert(na == g * 0);
        }
    }
    assert(r.n * d == n * r.d) by (nonlinear_arith)
        requires
            na == g * nn,
            da == g * dd,
            na == abs(n),
            da == abs(d),
            d != 0,
            abs(r.n) == nn,
            r.d == dd,
            (n < 0) != (d < 0) ==> r.n == -(nn as int),
            (n < 0) == (d < 0) ==> r.n == nn as int,
            n < 0 ==> na == -n,
            n >= 0 ==> na == n,
            d < 0 ==> da == -d,
            d >= 0 ==> da == d,
    ;
}

/// A rational already in canonical form is its own canonicalisation.
pub proof fn lemma_norm_fixpoint(r: Rat)
    requires
        rat_wf(r),
    ensures
        norm_frac(r.n, r.d) == r,
{
    let na = abs(r.n);
    let da = abs(r.d);
    assert(da == r.d);
    assert(gcd_nat(na, da) == 1);
    lemma_div_basics_one(na as int);
    lemma_div_basics_one(da as int);
    let out = norm_frac(r.n, r.d);
    assert(out.d == r.d);
    assert(out.n == r.n);
}

/// Division by one is the identity.
proof fn lemma_div_basics_one(x: int)
    requires
        x >= 0,
    ensures
        x / 1 == x,
{
    lemma_div_multiples_vanish(x, 1);
}

/// The strict rational order is transitive.
pub proof fn lemma_rat_lt_trans(a: Rat, b: Rat, c: Rat)
    requires
        rat_wf(a),
        rat_wf(b),
        rat_wf(c),
        rat_lt(a, b),
        rat_lt(b, c),
    ensures
        rat_lt(a, c),
{
    assert(a.n * c.d < c.n * a.d) by (nonlinear_arith)
        requires
            a.d >= 1,
            b.d >= 1,
            c.d >= 1,
            a.n * b.d < b.n * a.d,
            b.n * c.d < c.n * b.d,
    ;
}

/// Cross-multiplication equality between canonical rationals implies
/// structural equality of the numerators' products; together with
/// irreflexivity and asymmetry this makes `rat_lt` a strict total order.
pub proof fn lemma_rat_lt_total(a: Rat, b: Rat)
    requires
        rat_wf(a),
        rat_wf(b),
    ensures
        rat_lt(a, b) || rat_lt(b, a) || a.n * b.d == b.n * a.d,
        !(rat_lt(a, b) && rat_lt(b, a)),
{
}

/// Scaling both arguments scales their greatest common divisor.
pub proof fn lemma_gcd_scale(k: nat, a: nat, b: nat)
    requires
        k >= 1,
    ensures
        gcd_nat(k * a, k * b) == k * gcd_nat(a, b),
    decreases a,
{
    if a == 0 {
        assert(k * a == 0) by (nonlinear_arith)
            requires
                a == 0,
        ;
    } else {
        assert(k * a > 0) by (nonlinear_arith)
            requires
                k >= 1,
                a >= 1,
        ;
        let kb = (k * b) as int;
        let ka = (k * a) as int;
        lemma_breakdown(kb, k as int, a as int);
        assert(kb % ka == k * ((kb / (k as int)) % (a as int))) by {
            lemma_mod_multiples_basic(b as int, k as int);
            assert((b as int) * (k as int) == kb) by (nonlinear_arith)
                requires
                    kb == (k as int) * (b as int),
            ;
            assert(kb % (k as int) == 0);
            assert((k as int) * ((a as int)) == ka) by (nonlinear_arith)
                requires
                    ka == (k as int) * (a as int),
            ;
        }
        lemma_div_multiples_vanish(b as int, k as int);
        assert(kb / (k as int) == b);
        assert(kb % ka == k * (b % a));
        assert(gcd_nat((k * a) as nat, (k * b) as nat) == gcd_nat((kb % ka) as nat, (k * a) as nat));
        assert((kb % ka) as nat == k * (b % a));
        lemma_gcd_scale(k, b % a, a);
        assert(gcd_nat(k * (b % a), k * a) == k * gcd_nat(b % a, a));
    }
}

/// A rational has exactly one canonical form: two reduced fractions that
/// agree under cross-multiplication are structurally equal.
pub proof fn lemma_canonical_unique(a: Rat, b: Rat)
    requires
        rat_wf(a),
        rat_wf(b),
        a.n * b.d == b.n * a.d,
    ensures
        a == b,
{
    let n1 = a.n;
    let d1 = a.d;
    let n2 = b.n;
    let d2 = b.d;
    if n1 == 0 {
        assert(n2 * d1 == 0);
        assert(n2 == 0) by (nonlinear_arith)
            requires
                n2 * d1 == 0,
                d1 >= 1,
        ;
        assert(gcd_nat(abs(n1), d1 as nat) == d1 as nat);
        assert(gcd_nat(abs(n2), d2 as nat) == d2 as nat);
    } else {
        assert(n2 != 0) by (nonlinear_arith)
            requires
                n1 * d2 == n2 * d1,
                n1 != 0,
                d1 >= 1,
                d2 >= 1,
        ;
        let m1 = abs(n1);
        let m2 = abs(n2);
        assert(m1 * d2 == m2 * d1) by (nonlinear_arith)
            requires
                n1 * d2 == n2 * d1,
                d1 >= 1,
                d2 >= 1,
                n1 != 0,
                n2 != 0,
                m1 == abs(n1),
                m2 == abs(n2),
        ;
        lemma_gcd_scale(d2 as nat, m1, d1 as nat);
        lemma_gcd_scale(d1 as nat, m2, d2 as nat);
        assert(gcd_nat((d2 * m1) as nat, (d2 * d1) as nat) == d2 * gcd_nat(m1, d1 as nat));
        assert(gcd_nat((d1 * m2) as nat, (d1 * d2) as nat) == d1 * gcd_nat(m2, d2 as nat));
        assert(d2 * gcd_nat(m1, d1 as nat) == d2) by (nonlinear_arith)
            requires
                gcd_nat(m1, d1 as nat) == 1,
        ;
        assert(d1 * gcd_nat(m2, d2 as nat) == d1) by (nonlinear_arith)
            requires
                gcd_nat(m2, d2 as nat) == 1,
        ;
        assert((d2 * m1) as nat == (d1 * m2) as nat) by (nonlinear_arith)
            requires
                m1 * d2 == m2 * d1,
        ;
        assert((d2 * d1) as nat == (d1 * d2) as nat) by (nonlinear_arith);
        assert(d1 == d2);
        assert(n1 == n2) by (nonlinear_arith)
            requires
                n1 * d2 == n2 * d1,
                d1 == d2,
                d1 >= 1,
        ;
    }
}

} // verus!

verus! {

/// Canonicalisation with a positive denominator preserves the numerator's
/// sign.
pub proof fn lemma_norm_sign(n: int, d: int)
    requires
        d >= 1,
    ensures
        norm_frac(n, d).n < 0 <==> n < 0,
        norm_frac(n, d).n > 0 <==> n > 0,
        norm_frac(n, d).n == 0 <==> n == 0,
{
    lemma_norm_frac(n, d);
    let r = norm_frac(n, d);
    let na = abs(n);
    let da = abs(d);
    let g = gcd_nat(na, da);
    lemma_gcd_quotients(na, da);
    if n < 0 {
        assert(na > 0);
        assert(na == g * (na / g));
        assert(na / g > 0) by {
            if na / g == 0 {
                assert(na == g * 0);
            }
        }
        assert(r.n == -((na / g) as int));
    } else if n > 0 {
        assert(na == g * (na / g));
        assert(na / g > 0) by {
            if na / g == 0 {
                assert(na == g * 0);
            }
        }
        assert(r.n == (na / g) as int);
    }
}

/// Dividing by one is the identity on canonical rationals.
pub proof fn lemma_rat_div_one(x: Rat)
    requires
        rat_wf(x),
    ensures
        rat_div(x, rat_one()) == x,
{
    assert(x.n * 1 == x.n);
    assert(x.d * 1 == x.d);
    lemma_norm_fixpoint(x);
}

/// Multiplying by zero gives zero, in either order.
pub proof fn lemma_rat_mul_zero(x: Rat)
    requires
        rat_wf(x),
    ensures
        rat_mul(x, rat_zero()) == rat_zero(),
        rat_mul(rat_zero(), x) == rat_zero(),
{
    assert(x.n * 0 == 0);
    assert(0 * x.d == 0);
    assert(rat_mul(x, rat_zero()) == norm_frac(0, x.d * 1));
    assert(rat_mul(rat_zero(), x) == norm_frac(0, 1 * x.d));
    assert(x.d * 1 == x.d);
    assert(1 * x.d == x.d);
    lemma_norm_zero(x.d);
}

/// The canonical form of `0 / d` is zero.
pub proof fn lemma_norm_zero(d: int)
    requires
        d >= 1,
    ensures
        norm_frac(0, d) == rat_zero(),
{
    lemma_norm_frac(0, d);
    let r = norm_frac(0, d);
    assert(abs(r.n) == 0);
    assert(r.n == 0);
    assert(gcd_nat(0, abs(d)) == abs(d));
    lemma_div_by_self(d);
    assert(r.d == 1);
}

/// Subtracting zero is the identity on canonical rationals.
pub proof fn lemma_rat_sub_zero(x: Rat)
    requires
        rat_wf(x),
    ensures
        rat_sub(x, rat_zero()) == x,
{
    assert(x.n * 1 - 0 * x.d == x.n);
    assert(x.d * 1 == x.d);
    lemma_norm_fixpoint(x);
}

/// Zero divided by any non-zero rational is zero.
pub proof fn lemma_rat_div_zero(y: Rat)
    requires
        rat_wf(y),
        y.n != 0,
    ensures
        rat_div(rat_zero(), y) == rat_zero(),
{
    assert(rat_div(rat_zero(), y) == norm_frac(0 * y.d, 1 * y.n));
    assert(0 * y.d == 0);
    assert(1 * y.n == y.n);
    if y.n >= 1 {
        lemma_norm_zero(y.n);
    } else {
        lemma_norm_frac(0, y.n);
        let r = norm_frac(0, y.n);
        assert(abs(r.n) == 0);
        assert(gcd_nat(0, abs(y.n)) == abs(y.n));
        lemma_div_by_self(abs(y.n) as int);
        assert(r.d == 1);
    }
}

/// How subtraction moves a canonical rational: subtracting a negative
/// strictly raises it, subtracting a positive strictly lowers it, and
/// subtracting zero leaves it unchanged.
pub proof fn lemma_rat_sub_order(x: Rat, y: Rat)
    requires
        rat_wf(x),
        rat_wf(y),
    ensures
        rat_lt(y, rat_zero()) ==> rat_lt(x, rat_sub(x, y)),
        rat_lt(rat_zero(), y) ==> rat_lt(rat_sub(x, y), x),
        y == rat_zero() ==> rat_sub(x, y) == x,
{
    if y == rat_zero() {
        lemma_rat_sub_zero(x);
    } else {
        let nn = x.n * y.d - y.n * x.d;
        let dd = x.d * y.d;
        assert(dd >= 1) by (nonlinear_arith)
            requires
                dd == x.d * y.d,
                x.d >= 1,
                y.d >= 1,
        ;
        lemma_norm_frac(nn, dd);
        let s = norm_frac(nn, dd);
        assert(s.n * dd == nn * s.d);
        assert(s.d >= 1);
        if rat_lt(y, rat_zero()) {
            assert(y.n < 0);
            assert(x.n * s.d < s.n * x.d) by (nonlinear_arith)
                requires
                    s.n * dd == nn * s.d,
                    nn == x.n * y.d - y.n * x.d,
                    dd == x.d * y.d,
                    y.n < 0,
                    x.d >= 1,
                    y.d >= 1,
                    s.d >= 1,
                    dd >= 1,
            ;
        }
        if rat_lt(rat_zero(), y) {
            assert(y.n > 0);
            assert(s.n * x.d < x.n * s.d) by (nonlinear_arith)
                requires
                    s.n * dd == nn * s.d,
                    nn == x.n * y.d - y.n * x.d,
                    dd == x.d * y.d,
                    y.n > 0,
                    x.d >= 1,
                    y.d >= 1,
                    s.d >= 1,
                    dd >= 1,
            ;
        }
    }
}

/// The sign of a canonical product is the product of the signs.
pub proof fn lemma_rat_mul_sign(x: Rat, y: Rat)
    requires
        rat_wf(x),
        rat_wf(y),
    ensures
        rat_lt(x, rat_zero()) && rat_lt(rat_zero(), y) ==> rat_lt(rat_mul(x, y), rat_zero()),
        rat_lt(rat_zero(), x) && rat_lt(rat_zero(), y) ==> rat_lt(rat_zero(), rat_mul(x, y)),
        x == rat_zero() || y == rat_zero() ==> rat_mul(x, y) == rat_zero(),
{
    if x == rat_zero() {
        lemma_rat_mul_zero(y);
        assert(rat_mul(rat_zero(), y) == rat_zero());
    } else if y == rat_zero() {
        lemma_rat_mul_zero(x);
    } else {
        let dd = x.d * y.d;
        assert(dd >= 1) by (nonlinear_arith)
            requires
                dd == x.d * y.d,
                x.d >= 1,
                y.d >= 1,
        ;
        lemma_norm_sign(x.n * y.n, dd);
        if x.n < 0 && y.n > 0 {
            assert(x.n * y.n < 0) by (nonlinear_arith)
                requires
                    x.n < 0,
                    y.n > 0,
            ;
            assert(rat_mul(x, y).n < 0);
        }
        if x.n > 0 && y.n > 0 {
            assert(x.n * y.n > 0) by (nonlinear_arith)
                requires
                    x.n > 0,
                    y.n > 0,
            ;
            assert(rat_mul(x, y).n > 0);
        }
    }
}

/// The sign of a canonical quotient by a positive divisor is the sign of
/// the dividend.
pub proof fn lemma_rat_div_sign(x: Rat, p: Rat)
    requires
        rat_wf(x),
        rat_wf(p),
        rat_lt(rat_zero(), p),
    ensures
        rat_lt(x, rat_zero()) ==> rat_lt(rat_div(x, p), rat_zero()),
        rat_lt(rat_zero(), x) ==> rat_lt(rat_zero(), rat_div(x, p)),
        x == rat_zero() ==> rat_div(x, p) == rat_zero(),
{
    if x == rat_zero() {
        lemma_rat_div_zero(p);
    } else {
        assert(p.n > 0);
        let dd = x.d * p.n;
        assert(dd >= 1) by (nonlinear_arith)
            requires
                dd == x.d * p.n,
                x.d >= 1,
                p.n > 0,
        ;
        lemma_norm_sign(x.n * p.d, dd);
        if x.n < 0 {
            assert(x.n * p.d < 0) by (nonlinear_arith)
                requires
                    x.n < 0,
                    p.d >= 1,
            ;
        }
        if x.n > 0 {
            assert(x.n * p.d > 0) by (nonlinear_arith)
                requires
                    x.n > 0,
                    p.d >= 1,
            ;
        }
    }
}

} // verus!
