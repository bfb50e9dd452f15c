//! Laws of the pivot step.

use vstd::prelude::*;
use crate::rat::{
    Rat, rat_wf, rat_zero, rat_one, rat_lt, fits64, rat_mul, rat_div, rat_sub, lemma_rat_div_one,
    lemma_rat_mul_zero, lemma_rat_sub_zero, lemma_rat_div_zero, lemma_rat_sub_order,
    lemma_rat_mul_sign, lemma_rat_div_sign, lemma_gcd_one,
};
use crate::m::{MV, mv_wf, mv_zero, mv_lt, mv_le, mv_scale, mv_add};
use crate::rat::{rat_add, lemma_norm_zero};
use crate::tableau::Tableau;
use crate::tableau::pivot::{pivot_a_entry, pivot_b_entry, pivot_rc_entry, pivot_obj};
use crate::tableau::find_basis_indecies::is_unit_col;
use crate::tableau::calc_reduced_cost::obj_dot;

verus! {

/// A rational that a stored fraction can take: canonical and representable.
pub open spec fn canon_rat(r: Rat) -> bool {
    rat_wf(r) && fits64(r)
}

/// A big-M value both of whose components a stored fraction can take.
pub open spec fn canon_mv(v: MV) -> bool {
    canon_rat(v.m) && canon_rat(v.c)
}

/// The zero and one rationals are canonical and representable.
proof fn lemma_canon_constants()
    ensures
        canon_rat(rat_zero()),
        canon_rat(rat_one()),
        mv_wf(mv_zero()),
{
    lemma_gcd_one(0);
    lemma_gcd_one(1);
}

/// Pivot idempotence: pivoting on a column that is already basic for its
/// own row is a no-op. When the entering column is the unit vector of the
/// leaving row and its reduced cost is zero — as it is for any basic column
/// of a consistent tableau — every matrix entry, the right-hand side, the
/// reduced costs and the objective come out of the pivot formulas unchanged.
pub proof fn lemma_pivot_identity(t: Tableau, e: int, l: int)
    requires
        t.wf(),
        t.rc_ok(),
        0 <= l < t.m,
        0 <= e < t.n,
        forall|i: int, j: int|
            0 <= i < t.m && 0 <= j < t.n ==> canon_rat(#[trigger] t.a_spec()[i][j]),
        forall|i: int| 0 <= i < t.m ==> canon_rat(#[trigger] t.b_spec()[i]),
        forall|j: int| 0 <= j < t.n ==> canon_mv(#[trigger] t.rc_spec()[j]),
        canon_mv(t.obj@),
        is_unit_col(t.a_spec(), t.m as int, e, l),
        t.rc_spec()[e] == mv_zero(),
    ensures
        forall|i: int, j: int|
            0 <= i < t.m && 0 <= j < t.n ==> #[trigger] pivot_a_entry(t.a_spec(), e, l, i, j)
                == Some(t.a_spec()[i][j]),
        forall|i: int|
            0 <= i < t.m ==> #[trigger] pivot_b_entry(t.a_spec(), t.b_spec(), e, l, i) == Some(
                t.b_spec()[i],
            ),
        forall|j: int|
            0 <= j < t.n ==> #[trigger] pivot_rc_entry(t.a_spec(), t.rc_spec(), e, l, j) == Some(
                t.rc_spec()[j],
            ),
        pivot_obj(t.a_spec(), t.b_spec(), t.rc_spec(), t.obj@, e, l) == Some(t.obj@),
{
    lemma_canon_constants();
    let p = t.a_spec()[l][e];
    assert(p == rat_one());
    assert forall|i: int, j: int| 0 <= i < t.m && 0 <= j < t.n implies #[trigger] pivot_a_entry(
        t.a_spec(),
        e,
        l,
        i,
        j,
    ) == Some(t.a_spec()[i][j]) by {
        if i == l {
            lemma_rat_div_one(t.a_spec()[l][j]);
        } else {
            assert(t.a_spec()[i][e] == rat_zero());
            lemma_rat_mul_zero(t.a_spec()[l][j]);
            lemma_rat_div_zero(rat_one());
            lemma_rat_sub_zero(t.a_spec()[i][j]);
        }
    }
    assert forall|i: int| 0 <= i < t.m implies #[trigger] pivot_b_entry(
        t.a_spec(),
        t.b_spec(),
        e,
        l,
        i,
    ) == Some(t.b_spec()[i]) by {
        if i == l {
            lemma_rat_div_one(t.b_spec()[l]);
        } else {
            assert(t.a_spec()[i][e] == rat_zero());
            lemma_rat_mul_zero(t.b_spec()[l]);
            lemma_rat_div_zero(rat_one());
            lemma_rat_sub_zero(t.b_spec()[i]);
        }
    }
    assert forall|j: int| 0 <= j < t.n implies #[trigger] pivot_rc_entry(
        t.a_spec(),
        t.rc_spec(),
        e,
        l,
        j,
    ) == Some(t.rc_spec()[j]) by {
        lemma_rat_mul_zero(t.a_spec()[l][j]);
        lemma_rat_div_zero(rat_one());
        lemma_rat_sub_zero(t.rc_spec()[j].m);
        lemma_rat_sub_zero(t.rc_spec()[j].c);
    }
    lemma_rat_mul_zero(t.b_spec()[l]);
    lemma_rat_div_zero(rat_one());
    lemma_rat_sub_zero(t.obj@.m);
    lemma_rat_sub_zero(t.obj@.c);
}

/// One primal round trip never lowers the objective: after selecting an
/// entering column with negative reduced cost and a leaving row with a
/// positive pivot entry out of a feasible tableau, the pivoted objective is
/// at least the old one — strictly greater when the leaving row's
/// right-hand side is non-zero, unchanged on a degenerate pivot.
pub proof fn lemma_pivot_monotone(t: Tableau, e: int, l: int)
    requires
        t.wf(),
        t.rc_ok(),
        0 <= l < t.m,
        0 <= e < t.n,
        canon_mv(t.obj@),
        canon_mv(t.rc_spec()[e]),
        canon_rat(t.b_spec()[l]),
        canon_rat(t.a_spec()[l][e]),
        mv_lt(t.rc_spec()[e], mv_zero()),
        !rat_lt(t.b_spec()[l], rat_zero()),
        rat_lt(rat_zero(), t.a_spec()[l][e]),
        pivot_obj(t.a_spec(), t.b_spec(), t.rc_spec(), t.obj@, e, l) is Some,
    ensures
        mv_le(t.obj@, pivot_obj(t.a_spec(), t.b_spec(), t.rc_spec(), t.obj@, e, l).unwrap()),
        rat_lt(rat_zero(), t.b_spec()[l]) ==> mv_lt(
            t.obj@,
            pivot_obj(t.a_spec(), t.b_spec(), t.rc_spec(), t.obj@, e, l).unwrap(),
        ),
        t.b_spec()[l] == rat_zero() ==> pivot_obj(
            t.a_spec(),
            t.b_spec(),
            t.rc_spec(),
            t.obj@,
            e,
            l,
        ).unwrap() == t.obj@,
{
    lemma_canon_constants();
    let rce = t.rc_spec()[e];
    let bl = t.b_spec()[l];
    let p = t.a_spec()[l][e];
    let obj = t.obj@;
    let m1 = rat_mul(rce.m, bl);
    let c1 = rat_mul(rce.c, bl);
    let m2 = rat_div(m1, p);
    let c2 = rat_div(c1, p);
    let obj2 = pivot_obj(t.a_spec(), t.b_spec(), t.rc_spec(), t.obj@, e, l).unwrap();
    assert(obj2.m == rat_sub(obj.m, m2));
    assert(obj2.c == rat_sub(obj.c, c2));
    if bl == rat_zero() {
        lemma_rat_mul_zero(rce.m);
        lemma_rat_mul_zero(rce.c);
        lemma_rat_div_zero(p);
        lemma_rat_sub_zero(obj.m);
        lemma_rat_sub_zero(obj.c);
        assert(obj2 == obj);
    } else {
        assert(bl.n >= 0);
        assert(bl.n != 0) by {
            if bl.n == 0 {
                assert(crate::gcd_nat(vstd::math::abs(0int), bl.d as nat) == bl.d as nat);
                assert(bl == rat_zero());
            }
        }
        assert(rat_lt(rat_zero(), bl));
        if rat_lt(rce.m, rat_zero()) {
            lemma_rat_mul_sign(rce.m, bl);
            assert(rat_lt(m1, rat_zero()));
            assert(rce.m.d * bl.d >= 1) by (nonlinear_arith)
                requires
                    rce.m.d >= 1,
                    bl.d >= 1,
            ;
            crate::rat::lemma_norm_frac(rce.m.n * bl.n, rce.m.d * bl.d);
            assert(rat_wf(m1));
            assert(m1.d * p.n >= 1) by (nonlinear_arith)
                requires
                    m1.d >= 1,
                    p.n >= 1,
            ;
            lemma_rat_div_sign(m1, p);
            assert(rat_lt(m2, rat_zero()));
            assert(rat_wf(m2)) by {
                crate::rat::lemma_norm_frac(m1.n * p.d, m1.d * p.n);
            }
            lemma_rat_sub_order(obj.m, m2);
            assert(rat_lt(obj.m, obj2.m));
            assert(mv_lt(obj, obj2));
        } else {
            assert(rce.m == mv_zero().m);
            assert(rat_lt(rce.c, rat_zero()));
            lemma_rat_mul_zero(bl);
            assert(m1 == rat_zero());
            lemma_rat_div_zero(p);
            assert(m2 == rat_zero());
            lemma_rat_sub_zero(obj.m);
            assert(obj2.m == obj.m);
            lemma_rat_mul_sign(rce.c, bl);
            assert(rat_lt(c1, rat_zero()));
            assert(rce.c.d * bl.d >= 1) by (nonlinear_arith)
                requires
                    rce.c.d >= 1,
                    bl.d >= 1,
            ;
            crate::rat::lemma_norm_frac(rce.c.n * bl.n, rce.c.d * bl.d);
            assert(rat_wf(c1));
            assert(c1.d * p.n >= 1) by (nonlinear_arith)
                requires
                    c1.d >= 1,
                    p.n >= 1,
            ;
            lemma_rat_div_sign(c1, p);
            assert(rat_lt(c2, rat_zero()));
            assert(rat_wf(c2)) by {
                crate::rat::lemma_norm_frac(c1.n * p.d, c1.d * p.n);
            }
            lemma_rat_sub_order(obj.c, c2);
            assert(rat_lt(obj.c, obj2.c));
            assert(mv_lt(obj, obj2));
        }
    }
}


/// The sum of two zeros is zero.
proof fn lemma_rat_add_zero()
    ensures
        rat_add(rat_zero(), rat_zero()) == rat_zero(),
{
    assert(rat_add(rat_zero(), rat_zero()) == crate::rat::norm_frac(0int * 1 + 0 * 1, 1int * 1));
    lemma_norm_zero(1);
}

/// A plain basis prices a plain objective: when every basic cost carries a
/// zero `M` coefficient — as it does once every artificial variable has
/// left the basis and the real costs are finite — the objective the pricing
/// formula yields has an `M` coefficient of exactly zero.
pub proof fn lemma_obj_plain_of_plain_basis(bc: Seq<MV>, b: Seq<Rat>, k: int)
    requires
        forall|r: int| 0 <= r < k ==> (#[trigger] bc[r]).m == rat_zero(),
        forall|r: int| 0 <= r < k ==> rat_wf(#[trigger] b[r]),
    ensures
        obj_dot(bc, b, k) matches Some(v) ==> v.m == rat_zero(),
    decreases k,
{
    lemma_canon_constants();
    if k > 0 {
        lemma_obj_plain_of_plain_basis(bc, b, k - 1);
        if obj_dot(bc, b, k) is Some {
            let acc = obj_dot(bc, b, k - 1).unwrap();
            let t = mv_scale(bc[k - 1], b[k - 1]);
            assert(t.m == rat_mul(rat_zero(), b[k - 1]));
            lemma_rat_mul_zero(b[k - 1]);
            assert(t.m == rat_zero());
            let v = mv_add(acc, t);
            assert(v.m == rat_add(rat_zero(), rat_zero()));
            lemma_rat_add_zero();
        }
    }
}

} // verus!
