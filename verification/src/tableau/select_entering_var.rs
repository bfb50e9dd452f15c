//! Choosing the entering variable.

use vstd::prelude::*;
use core::cmp::Ordering;
use crate::Fraction;
use crate::m::{M, MV, mv_zero, mv_lt, mv_wf, mv_div_checked, mv_div};
use crate::rat::{Rat, rat_lt};
use crate::tableau::{Tableau, ErrorKind, SolveAlgorithm, VariableSelectType};

verus! {

/// The first index at or after `j` whose reduced cost is negative.
pub open spec fn first_neg_from(rc: Seq<MV>, j: int) -> Option<int>
    decreases rc.len() - j,
{
    if j < 0 || j >= rc.len() {
        None
    } else if mv_lt(rc[j], mv_zero()) {
        Some(j)
    } else {
        first_neg_from(rc, j + 1)
    }
}

/// The first index attaining the minimum among the first `k` reduced costs;
/// meaningful for `k >= 1`.
pub open spec fn first_min_upto(rc: Seq<MV>, k: int) -> int
    decreases k,
{
    if k <= 1 {
        0
    } else {
        let p = first_min_upto(rc, k - 1);
        if mv_lt(rc[k - 1], rc[p]) {
            k - 1
        } else {
            p
        }
    }
}

/// Whether every dual ratio of the leaving row stays representable.
pub open spec fn dual_ratio_defined(t: Tableau, l: int) -> bool {
    forall|j: int|
        0 <= j < t.n && (#[trigger] t.a_spec()[l][j]).n < 0 ==> mv_div_checked(
            t.rc_spec()[j],
            t.a_spec()[l][j],
        ) is Some
}

/// The first column attaining the maximal ratio `reduced_cost[j] /
/// A[l][j]` among the first `k` columns with a strictly negative entry in
/// row `l`, together with that ratio.
pub open spec fn dual_best(t: Tableau, l: int, k: int) -> Option<(int, MV)>
    decreases k,
{
    if k <= 0 {
        None
    } else {
        let prev = dual_best(t, l, k - 1);
        if t.a_spec()[l][k - 1].n >= 0 {
            prev
        } else {
            let r = mv_div(t.rc_spec()[k - 1], t.a_spec()[l][k - 1]);
            match prev {
                None => Some((k - 1, r)),
                Some((bi, bv)) => if mv_lt(bv, r) {
                    Some((k - 1, r))
                } else {
                    Some((bi, bv))
                },
            }
        }
    }
}

/// The first minimum lies among the scanned prefix.
pub proof fn lemma_first_min_upto_range(rc: Seq<MV>, k: int)
    requires
        k >= 1,
    ensures
        0 <= first_min_upto(rc, k) < k,
    decreases k,
{
    if k > 1 {
        lemma_first_min_upto_range(rc, k - 1);
    }
}

/// A found first negative reduced cost lies in range and is negative.
pub proof fn lemma_first_neg_from_range(rc: Seq<MV>, j: int)
    requires
        0 <= j,
        first_neg_from(rc, j) is Some,
    ensures
        j <= first_neg_from(rc, j).unwrap() < rc.len(),
        mv_lt(rc[first_neg_from(rc, j).unwrap()], mv_zero()),
    decreases rc.len() - j,
{
    if j < rc.len() && !mv_lt(rc[j], mv_zero()) {
        lemma_first_neg_from_range(rc, j + 1);
    }
}

/// A found best dual column lies in range and has a strictly negative
/// entry in the leaving row.
pub proof fn lemma_dual_best_props(t: Tableau, l: int, k: int)
    requires
        dual_best(t, l, k) is Some,
    ensures
        0 <= dual_best(t, l, k).unwrap().0 < k,
        t.a_spec()[l][dual_best(t, l, k).unwrap().0].n < 0,
    decreases k,
{
    if k > 0 {
        if dual_best(t, l, k - 1) is Some && dual_best(t, l, k) == dual_best(t, l, k - 1) {
            lemma_dual_best_props(t, l, k - 1);
        }
    }
}

/// The dual scan depends only on the matrix and the reduced costs.
pub proof fn lemma_dual_best_same(t1: Tableau, t2: Tableau, l: int, k: int)
    requires
        t1.a_spec() == t2.a_spec(),
        t1.rc_spec() == t2.rc_spec(),
    ensures
        dual_best(t1, l, k) == dual_best(t2, l, k),
    decreases k,
{
    if k > 0 {
        lemma_dual_best_same(t1, t2, l, k - 1);
    }
}

/// No negative entry among the first `j` reduced costs when the scan from
/// `j` found none.
proof fn lemma_first_neg_none(rc: Seq<MV>, j: int)
    requires
        0 <= j <= rc.len(),
        first_neg_from(rc, j) is None,
    ensures
        forall|k: int| j <= k < rc.len() ==> !mv_lt(#[trigger] rc[k], mv_zero()),
    decreases rc.len() - j,
{
    if j < rc.len() {
        lemma_first_neg_none(rc, j + 1);
    }
}

/// A scan over all-non-negative reduced costs finds nothing.
pub proof fn lemma_first_neg_from_none(rc: Seq<MV>, j: int)
    requires
        0 <= j,
        forall|k: int| j <= k < rc.len() ==> !mv_lt(#[trigger] rc[k], mv_zero()),
    ensures
        first_neg_from(rc, j) is None,
    decreases rc.len() - j,
{
    if j < rc.len() {
        lemma_first_neg_from_none(rc, j + 1);
    }
}

impl Tableau {
    /// Picks the entering variable. Under the primal algorithm the column
    /// with the most negative reduced cost enters (ties to the first index),
    /// or the first negative column under Bland's rule; with no negative
    /// column the tableau is optimal and is marked solved. Under the dual
    /// algorithm, the column maximising `reduced_cost[j] / A[l][j]` over
    /// strictly negative entries of the leaving row `l` enters; with no
    /// negative entry the problem is unbounded.
    #[verifier::loop_isolation(false)]
    #[verifier::rlimit(60)]
    pub fn select_entering_var(&mut self)
        requires
            old(self).wf(),
            old(self).rc_ok(),
        ensures
            final(self).wf(),
            final(self).rc_ok(),
            final(self).A == old(self).A,
            final(self).b == old(self).b,
            final(self).c == old(self).c,
            final(self).m == old(self).m,
            final(self).n == old(self).n,
            final(self).obj == old(self).obj,
            final(self).basis_indecies == old(self).basis_indecies,
            final(self).reduced_cost == old(self).reduced_cost,
            final(self).two_phase_c == old(self).two_phase_c,
            final(self).solution == old(self).solution,
            final(self).has_artificial_vars == old(self).has_artificial_vars,
            final(self).leaving_var_index == old(self).leaving_var_index,
            final(self).solve_algorithm == old(self).solve_algorithm,
            final(self).variable_select_type == old(self).variable_select_type,
            final(self).big_M_solve_algorithm == old(self).big_M_solve_algorithm,
            old(self).solve_algorithm is Dual ==> final(self).solved == old(self).solved,
            old(self).solve_algorithm is Standard ==> {
                let rc = old(self).rc_spec();
                &&& old(self).n == 0 ==> (final(self).error && final(self).error_kind == Some(
                    ErrorKind::ConfigError,
                ) && final(self).entering_var_index is None && final(self).solved == old(self).solved)
                &&& (old(self).n > 0 && old(self).variable_select_type is Standard) ==> {
                    let i = first_min_upto(rc, old(self).n as int);
                    &&& mv_lt(rc[i], mv_zero()) ==> (final(self).entering_var_index == Some(
                        i as usize,
                    ) && final(self).solved == old(self).solved && final(self).error == old(self).error && final(self).error_kind == old(self).error_kind)
                    &&& !mv_lt(rc[i], mv_zero()) ==> (final(self).solved && final(self).entering_var_index is None && final(self).error == old(self).error && final(self).error_kind == old(self).error_kind && (forall|j: int|
                        0 <= j < old(self).n ==> !mv_lt(#[trigger] rc[j], mv_zero())))
                }
                &&& (old(self).n > 0 && old(self).variable_select_type is Bland) ==> {
                    &&& first_neg_from(rc, 0) matches Some(i) ==> (final(self).entering_var_index
                        == Some(i as usize) && final(self).solved == old(self).solved && final(self).error == old(self).error && final(self).error_kind == old(self).error_kind)
                    &&& first_neg_from(rc, 0) is None ==> (final(self).solved && final(self).entering_var_index is None && final(self).error == old(self).error && final(self).error_kind == old(self).error_kind && (forall|j: int|
                        0 <= j < old(self).n ==> !mv_lt(#[trigger] rc[j], mv_zero())))
                }
            },
            old(self).solve_algorithm is Dual ==> {
                &&& old(self).leaving_var_index is None ==> (final(self).error && final(self).error_kind == Some(ErrorKind::ConfigError) && final(self).entering_var_index
                    is None)
                &&& old(self).leaving_var_index matches Some(l) ==> {
                    &&& l >= old(self).m ==> (final(self).error && final(self).error_kind == Some(
                        ErrorKind::ConfigError,
                    ) && final(self).entering_var_index is None)
                    &&& (l < old(self).m && !dual_ratio_defined(*old(self), l as int)) ==> (final(self).error && final(self).error_kind == Some(ErrorKind::Overflow))
                    &&& (l < old(self).m && dual_ratio_defined(*old(self), l as int) && dual_best(
                        *old(self),
                        l as int,
                        old(self).n as int,
                    ) is None) ==> (final(self).error && final(self).error_kind == Some(
                        ErrorKind::Unbounded,
                    ) && final(self).entering_var_index is None)
                    &&& (l < old(self).m && dual_ratio_defined(*old(self), l as int) && dual_best(
                        *old(self),
                        l as int,
                        old(self).n as int,
                    ) is Some) ==> (final(self).entering_var_index == Some(
                        dual_best(*old(self), l as int, old(self).n as int).unwrap().0 as usize,
                    ) && final(self).solved == old(self).solved && final(self).error == old(self).error && final(self).error_kind == old(self).error_kind)
                }
            },
    {
        match self.solve_algorithm {
            SolveAlgorithm::Standard => {
                if self.n == 0 {
                    self.entering_var_index = None;
                    self.set_error(
                        ErrorKind::ConfigError,
                        "Reduced cost vector is empty. Coefficient matrix is empty. Cannot solve an empty coefficient matrix.",
                    );
                    return;
                }
                match self.variable_select_type {
                    VariableSelectType::Standard => {
                        let ghost rc = self.rc_spec();
                        let mut best: usize = 0;
                        let mut j: usize = 1;
                        let first = self.reduced_cost[0];
                        proof {
                            use_type_invariant(first.m_coeff);
                            use_type_invariant(first.constant);
                        }
                        while j < self.n
                            invariant
                                1 <= j <= self.n,
                                best < j,
                                best as int == first_min_upto(rc, j as int),
                                forall|r: int| 0 <= r < j ==> mv_wf(#[trigger] rc[r]),
                                forall|r: int| 0 <= r < j ==> !mv_lt(#[trigger] rc[r], rc[best as int]),
                            decreases self.n - j,
                        {
                            let cur = self.reduced_cost[j];
                            proof {
                                use_type_invariant(cur.m_coeff);
                                use_type_invariant(cur.constant);
                            }
                            let o = cur.compare(&self.reduced_cost[best]);
                            match o {
                                Ordering::Less => {
                                    proof {
                                        assert forall|r: int| 0 <= r < j + 1 implies !mv_lt(
                                            #[trigger] rc[r],
                                            rc[j as int],
                                        ) by {
                                            if r < j && mv_lt(rc[r], rc[j as int]) {
                                                crate::m::lemma_mv_order_trans(
                                                    rc[r],
                                                    rc[j as int],
                                                    rc[best as int],
                                                );
                                            }
                                        }
                                    }
                                    best = j;
                                },
                                _ => {
                                    proof {
                                        crate::m::lemma_mv_order_total(rc[j as int], rc[best as int]);
                                    }
                                },
                            }
                            j += 1;
                        }
                        let bestv = self.reduced_cost[best];
                        if bestv.is_negative() {
                            self.entering_var_index = Some(best);
                        } else {
                            proof {
                                assert forall|k: int| 0 <= k < self.n implies !mv_lt(
                                    #[trigger] rc[k],
                                    mv_zero(),
                                ) by {
                                    if mv_lt(rc[k], mv_zero()) {
                                        crate::m::lemma_mv_order_total(rc[k], rc[best as int]);
                                        if mv_lt(rc[best as int], rc[k]) {
                                            crate::m::lemma_mv_order_trans(
                                                rc[best as int],
                                                rc[k],
                                                mv_zero(),
                                            );
                                        }
                                    }
                                }
                            }
                            self.solved = true;
                            self.entering_var_index = None;
                        }
                    },
                    VariableSelectType::Bland => {
                        let ghost rc = self.rc_spec();
                        let mut j: usize = 0;
                        while j < self.n
                            invariant
                                *self == *old(self),
                                j <= self.n,
                                first_neg_from(rc, 0) == first_neg_from(rc, j as int),
                                forall|r: int| 0 <= r < j ==> !mv_lt(#[trigger] rc[r], mv_zero()),
                            decreases self.n - j,
                        {
                            if self.reduced_cost[j].is_negative() {
                                self.entering_var_index = Some(j);
                                return;
                            }
                            j += 1;
                        }
                        proof {
                            assert(rc.len() == self.n);
                            assert(first_neg_from(rc, self.n as int) is None);
                            lemma_first_neg_none(rc, 0);
                        }
                        self.solved = true;
                        self.entering_var_index = None;
                    },
                }
            },
            SolveAlgorithm::Dual => {
                let l = match self.leaving_var_index {
                    Some(l) => l,
                    None => {
                        self.entering_var_index = None;
                        self.set_error(
                            ErrorKind::ConfigError,
                            "Something seems to have gone wrong. Dual simplex method requires to select a leaving variable before an entering variable can be selected.",
                        );
                        return;
                    },
                };
                if l >= self.m {
                    self.entering_var_index = None;
                    self.set_error(
                        ErrorKind::ConfigError,
                        "The selected leaving row is out of range.",
                    );
                    return;
                }
                let mut best: Option<(usize, M)> = None;
                let mut j: usize = 0;
                while j < self.n
                    invariant
                        *self == *old(self),
                        j <= self.n,
                        l < self.m,
                        match best {
                            None => dual_best(*self, l as int, j as int) is None,
                            Some((bi, bv)) => bi < self.n && dual_best(*self, l as int, j as int)
                                == Some((bi as int, bv@)),
                        },
                        forall|k: int|
                            0 <= k < j && (#[trigger] self.a_spec()[l as int][k]).n < 0
                                ==> mv_div_checked(
                                self.rc_spec()[k],
                                self.a_spec()[l as int][k],
                            ) is Some,
                    decreases self.n - j,
                {
                    let alj = self.A[l][j];
                    if alj.is_negative() {
                        let ratio = match self.reduced_cost[j].divide(alj) {
                            Ok(v) => v,
                            Err(_) => {
                                proof {
                                    assert(self.a_spec()[l as int][j as int] == alj@);
                                    assert(mv_div_checked(
                                        self.rc_spec()[j as int],
                                        self.a_spec()[l as int][j as int],
                                    ) is None);
                                    assert(!dual_ratio_defined(*self, l as int));
                                }
                                self.set_error(
                                    ErrorKind::Overflow,
                                    "Exact arithmetic left the 64-bit range while computing dual ratios.",
                                );
                                return;
                            },
                        };
                        best = match best {
                            None => Some((j, ratio)),
                            Some((bi, bv)) => {
                                let o = bv.compare(&ratio);
                                match o {
                                    Ordering::Less => Some((j, ratio)),
                                    _ => Some((bi, bv)),
                                }
                            },
                        };
                    }
                    j += 1;
                }
                match best {
                    None => {
                        self.entering_var_index = None;
                        self.set_error(ErrorKind::Unbounded, "Problem is unbounded.");
                    },
                    Some((bi, _)) => {
                        self.entering_var_index = Some(bi);
                    },
                }
            },
        }
    }
}

} // verus!
