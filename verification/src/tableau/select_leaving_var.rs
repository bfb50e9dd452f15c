//! Choosing the leaving variable.

use vstd::prelude::*;
use core::cmp::Ordering;
use crate::Fraction;
use crate::rat::{Rat, rat_zero, rat_lt, rat_wf, rat_div, rat_div_checked, lemma_rat_lt_trans, lemma_rat_lt_total};
use crate::tableau::{Tableau, ErrorKind, SolveAlgorithm, VariableSelectType};

verus! {

/// Whether every primal ratio of the entering column stays representable.
pub open spec fn primal_ratio_defined(t: Tableau, e: int) -> bool {
    forall|r: int|
        0 <= r < t.m && (#[trigger] t.a_spec()[r][e]).n > 0 ==> rat_div_checked(
            t.b_spec()[r],
            t.a_spec()[r][e],
        ) is Some
}

/// The first row attaining the minimal ratio `b[r] / A[r][e]` among the
/// first `k` rows with a strictly positive entry in column `e`, with that
/// ratio.
pub open spec fn primal_best(t: Tableau, e: int, k: int) -> Option<(int, Rat)>
    decreases k,
{
    if k <= 0 {
        None
    } else {
        let prev = primal_best(t, e, k - 1);
        if t.a_spec()[k - 1][e].n <= 0 {
            prev
        } else {
            let r = rat_div(t.b_spec()[k - 1], t.a_spec()[k - 1][e]);
            match prev {
                None => Some((k - 1, r)),
                Some((bi, bv)) => if rat_lt(r, bv) {
                    Some((k - 1, r))
                } else {
                    Some((bi, bv))
                },
            }
        }
    }
}

/// The first index attaining the minimum among the first `k` right-hand
/// sides; meaningful for `k >= 1`.
pub open spec fn first_min_b_upto(b: Seq<Rat>, k: int) -> int
    decreases k,
{
    if k <= 1 {
        0
    } else {
        let p = first_min_b_upto(b, k - 1);
        if rat_lt(b[k - 1], b[p]) {
            k - 1
        } else {
            p
        }
    }
}

/// The first index at or after `j` with a negative right-hand side.
pub open spec fn first_neg_b_from(b: Seq<Rat>, j: int) -> Option<int>
    decreases b.len() - j,
{
    if j < 0 || j >= b.len() {
        None
    } else if rat_lt(b[j], rat_zero()) {
        Some(j)
    } else {
        first_neg_b_from(b, j + 1)
    }
}

/// The first minimum of the right-hand side lies among the scanned prefix.
pub proof fn lemma_first_min_b_upto_range(b: Seq<Rat>, k: int)
    requires
        k >= 1,
    ensures
        0 <= first_min_b_upto(b, k) < k,
    decreases k,
{
    if k > 1 {
        lemma_first_min_b_upto_range(b, k - 1);
    }
}

/// A found first negative right-hand side lies in range and is negative.
pub proof fn lemma_first_neg_b_from_range(b: Seq<Rat>, j: int)
    requires
        0 <= j,
        first_neg_b_from(b, j) is Some,
    ensures
        j <= first_neg_b_from(b, j).unwrap() < b.len(),
        rat_lt(b[first_neg_b_from(b, j).unwrap()], rat_zero()),
    decreases b.len() - j,
{
    if j < b.len() && !rat_lt(b[j], rat_zero()) {
        lemma_first_neg_b_from_range(b, j + 1);
    }
}

/// A found best leaving row lies in range and has a strictly positive
/// entry in the entering column.
pub proof fn lemma_primal_best_props(t: Tableau, e: int, k: int)
    requires
        primal_best(t, e, k) is Some,
    ensures
        0 <= primal_best(t, e, k).unwrap().0 < k,
        t.a_spec()[primal_best(t, e, k).unwrap().0][e].n > 0,
    decreases k,
{
    if k > 0 {
        if primal_best(t, e, k - 1) is Some && primal_best(t, e, k) == primal_best(t, e, k - 1) {
            lemma_primal_best_props(t, e, k - 1);
        }
    }
}

/// The ratio test depends only on the matrix and the right-hand side.
pub proof fn lemma_primal_best_same(t1: Tableau, t2: Tableau, e: int, k: int)
    requires
        t1.a_spec() == t2.a_spec(),
        t1.b_spec() == t2.b_spec(),
    ensures
        primal_best(t1, e, k) == primal_best(t2, e, k),
    decreases k,
{
    if k > 0 {
        lemma_primal_best_same(t1, t2, e, k - 1);
    }
}

/// No negative right-hand side among the scanned suffix when the scan found
/// none.
proof fn lemma_first_neg_b_none(b: Seq<Rat>, j: int)
    requires
        0 <= j <= b.len(),
        first_neg_b_from(b, j) is None,
    ensures
        forall|k: int| j <= k < b.len() ==> !rat_lt(#[trigger] b[k], rat_zero()),
    decreases b.len() - j,
{
    if j < b.len() {
        lemma_first_neg_b_none(b, j + 1);
    }
}

/// A scan over an all-non-negative right-hand side finds nothing.
pub proof fn lemma_first_neg_b_from_none(b: Seq<Rat>, j: int)
    requires
        0 <= j,
        forall|k: int| j <= k < b.len() ==> !rat_lt(#[trigger] b[k], rat_zero()),
    ensures
        first_neg_b_from(b, j) is None,
    decreases b.len() - j,
{
    if j < b.len() {
        lemma_first_neg_b_from_none(b, j + 1);
    }
}

impl Tableau {
    /// Picks the leaving variable. Under the primal algorithm the minimum
    /// ratio test decides: over rows with a strictly positive entry in the
    /// entering column, the row minimising `b[row] / A[row][entering]`
    /// leaves, ties to the first index; with no qualifying row the problem
    /// is unbounded. Under the dual algorithm the row with the most negative
    /// right-hand side leaves (the first negative one under Bland's rule);
    /// with no negative right-hand side the tableau is feasible and is
    /// marked solved.
    #[verifier::loop_isolation(false)]
    #[verifier::rlimit(60)]
    pub fn select_leaving_var(&mut self)
        requires
            old(self).wf(),
        ensures
            final(self).wf(),
            final(self).A == old(self).A,
            final(self).b == old(self).b,
            final(self).c == old(self).c,
            final(self).m == old(self).m,
            final(self).n == old(self).n,
            final(self).obj == old(self).obj,
            final(self).basis_indecies == old(self).basis_indecies,
            final(self).reduced_cost == old(self).reduced_cost,
            final(self).two_phase_c == old(self).two_phase_c,
            final(self).solution == old(self).solution,
            final(self).has_artificial_vars == old(self).has_artificial_vars,
            final(self).entering_var_index == old(self).entering_var_index,
            final(self).solve_algorithm == old(self).solve_algorithm,
            final(self).variable_select_type == old(self).variable_select_type,
            final(self).big_M_solve_algorithm == old(self).big_M_solve_algorithm,
            old(self).solve_algorithm is Standard ==> final(self).solved == old(self).solved,
            old(self).solve_algorithm is Standard ==> {
                &&& old(self).m == 0 ==> (final(self).error && final(self).error_kind == Some(
                    ErrorKind::ConfigError,
                ) && final(self).leaving_var_index is None)
                &&& (old(self).m > 0 && old(self).entering_var_index is None) ==> (final(self).error && final(self).error_kind == Some(ErrorKind::ConfigError) && final(self).leaving_var_index is None)
                &&& old(self).entering_var_index matches Some(e) ==> {
                    &&& (old(self).m > 0 && e >= old(self).n) ==> (final(self).error && final(self).error_kind == Some(ErrorKind::ConfigError) && final(self).leaving_var_index
                        is None)
                    &&& (old(self).m > 0 && e < old(self).n && !primal_ratio_defined(
                        *old(self),
                        e as int,
                    )) ==> (final(self).error && final(self).error_kind == Some(
                        ErrorKind::Overflow,
                    ))
                    &&& (old(self).m > 0 && e < old(self).n && primal_ratio_defined(
                        *old(self),
                        e as int,
                    ) && primal_best(*old(self), e as int, old(self).m as int) is None) ==> (final(self).error && final(self).error_kind == Some(ErrorKind::Unbounded) && final(self).leaving_var_index is None)
                    &&& (old(self).m > 0 && e < old(self).n && primal_ratio_defined(
                        *old(self),
                        e as int,
                    ) && primal_best(*old(self), e as int, old(self).m as int) is Some) ==> (final(self).leaving_var_index == Some(
                        primal_best(*old(self), e as int, old(self).m as int).unwrap().0 as usize,
                    ) && final(self).solved == old(self).solved && final(self).error == old(self).error && final(self).error_kind == old(self).error_kind)
                }
            },
            old(self).solve_algorithm is Dual ==> {
                let b = old(self).b_spec();
                &&& old(self).m == 0 ==> (final(self).error && final(self).error_kind == Some(
                    ErrorKind::ConfigError,
                ) && final(self).leaving_var_index is None)
                &&& (old(self).m > 0 && old(self).variable_select_type is Standard) ==> {
                    let i = first_min_b_upto(b, old(self).m as int);
                    &&& rat_lt(b[i], rat_zero()) ==> (final(self).leaving_var_index == Some(
                        i as usize,
                    ) && final(self).solved == old(self).solved && final(self).error == old(self).error && final(self).error_kind == old(self).error_kind)
                    &&& !rat_lt(b[i], rat_zero()) ==> (final(self).solved && final(self).leaving_var_index is None && final(self).error == old(self).error && final(self).error_kind == old(self).error_kind && (forall|r: int|
                        0 <= r < old(self).m ==> !rat_lt(#[trigger] b[r], rat_zero())))
                }
                &&& (old(self).m > 0 && old(self).variable_select_type is Bland) ==> {
                    &&& first_neg_b_from(b, 0) matches Some(i) ==> (final(self).leaving_var_index
                        == Some(i as usize) && final(self).solved == old(self).solved && final(self).error == old(self).error && final(self).error_kind == old(self).error_kind)
                    &&& first_neg_b_from(b, 0) is None ==> (final(self).solved && final(self).leaving_var_index is None && final(self).error == old(self).error && final(self).error_kind == old(self).error_kind && (forall|r: int|
                        0 <= r < old(self).m ==> !rat_lt(#[trigger] b[r], rat_zero())))
                }
            },
    {
        match self.solve_algorithm {
            SolveAlgorithm::Standard => {
                if self.m == 0 {
                    self.leaving_var_index = None;
                    self.set_error(
                        ErrorKind::ConfigError,
                        "Coefficient matrix is empty. Cannot solve an empty coefficient matrix.",
                    );
                    return;
                }
                let e = match self.entering_var_index {
                    Some(e) => e,
                    None => {
                        self.leaving_var_index = None;
                        self.set_error(
                            ErrorKind::ConfigError,
                            "Something seems to have gone wrong. Standard solve requires to select an entering variable before a leaving variable can be selected.",
                        );
                        return;
                    },
                };
                if e >= self.n {
                    self.leaving_var_index = None;
                    self.set_error(
                        ErrorKind::ConfigError,
                        "The selected entering column is out of range.",
                    );
                    return;
                }
                let mut best: Option<(usize, Fraction)> = None;
                let mut r: usize = 0;
                while r < self.m
                    invariant
                        *self == *old(self),
                        r <= self.m,
                        e < self.n,
                        match best {
                            None => primal_best(*self, e as int, r as int) is None,
                            Some((bi, bv)) => bi < self.m && primal_best(*self, e as int, r as int)
                                == Some((bi as int, bv@)),
                        },
                        forall|k: int|
                            0 <= k < r && (#[trigger] self.a_spec()[k][e as int]).n > 0
                                ==> rat_div_checked(
                                self.b_spec()[k],
                                self.a_spec()[k][e as int],
                            ) is Some,
                    decreases self.m - r,
                {
                    let are = self.A[r][e];
                    if are.is_positive() {
                        let ratio = match self.b[r].div(are) {
                            Ok(v) => v,
                            Err(_) => {
                                proof {
                                    assert(self.a_spec()[r as int][e as int] == are@);
                                    assert(rat_div_checked(
                                        self.b_spec()[r as int],
                                        self.a_spec()[r as int][e as int],
                                    ) is None);
                                    assert(!primal_ratio_defined(*self, e as int));
                                }
                                self.set_error(
                                    ErrorKind::Overflow,
                                    "Exact arithmetic left the 64-bit range during the ratio test.",
                                );
                                return;
                            },
                        };
                        best = match best {
                            None => Some((r, ratio)),
                            Some((bi, bv)) => {
                                let o = ratio.compare(&bv);
                                match o {
                                    Ordering::Less => Some((r, ratio)),
                                    _ => Some((bi, bv)),
                                }
                            },
                        };
                    }
                    r += 1;
                }
                match best {
                    None => {
                        self.leaving_var_index = None;
                        self.set_error(ErrorKind::Unbounded, "Problem is unbounded.");
                    },
                    Some((bi, _)) => {
                        self.leaving_var_index = Some(bi);
                    },
                }
            },
            SolveAlgorithm::Dual => {
                if self.m == 0 {
                    self.leaving_var_index = None;
                    self.set_error(
                        ErrorKind::ConfigError,
                        "Unknown error. It seems like b is empty.",
                    );
                    return;
                }
                match self.variable_select_type {
                    VariableSelectType::Standard => {
                        let ghost b = self.b_spec();
                        let mut best: usize = 0;
                        let mut r: usize = 1;
                        let first = self.b[0];
                        proof {
                            use_type_invariant(first);
                        }
                        while r < self.m
                            invariant
                                1 <= r <= self.m,
                                best < r,
                                best as int == first_min_b_upto(b, r as int),
                                forall|k: int| 0 <= k < r ==> rat_wf(#[trigger] b[k]),
                                forall|k: int| 0 <= k < r ==> !rat_lt(#[trigger] b[k], b[best as int]),
                            decreases self.m - r,
                        {
                            let cur = self.b[r];
                            proof {
                                use_type_invariant(cur);
                            }
                            let o = cur.compare(&self.b[best]);
                            match o {
                                Ordering::Less => {
                                    proof {
                                        assert forall|k: int| 0 <= k < r + 1 implies !rat_lt(
                                            #[trigger] b[k],
                                            b[r as int],
                                        ) by {
                                            if k < r && rat_lt(b[k], b[r as int]) {
                                                lemma_rat_lt_trans(b[k], b[r as int], b[best as int]);
                                            }
                                        }
                                    }
                                    best = r;
                                },
                                _ => {
                                    proof {
                                        lemma_rat_lt_total(b[r as int], b[best as int]);
                                    }
                                },
                            }
                            r += 1;
                        }
                        let bestv = self.b[best];
                        if bestv.is_negative() {
                            self.leaving_var_index = Some(best);
                        } else {
                            proof {
                                assert forall|k: int| 0 <= k < self.m implies !rat_lt(
                                    #[trigger] b[k],
                                    rat_zero(),
                                ) by {
                                    if rat_lt(b[k], rat_zero()) {
                                        lemma_rat_lt_total(b[k], b[best as int]);
                                        if rat_lt(b[best as int], b[k]) {
                                            lemma_rat_lt_trans(b[best as int], b[k], rat_zero());
                                        }
                                        if b[k].n * b[best as int].d == b[best as int].n * b[k].d {
                                            crate::rat::lemma_canonical_unique(b[k], b[best as int]);
                                        }
                                    }
                                }
                            }
                            self.solved = true;
                            self.leaving_var_index = None;
                        }
                    },
                    VariableSelectType::Bland => {
                        let ghost b = self.b_spec();
                        let mut r: usize = 0;
                        while r < self.m
                            invariant
                                *self == *old(self),
                                r <= self.m,
                                first_neg_b_from(b, 0) == first_neg_b_from(b, r as int),
                                forall|k: int| 0 <= k < r ==> !rat_lt(#[trigger] b[k], rat_zero()),
                            decreases self.m - r,
                        {
                            if self.b[r].is_negative() {
                                self.leaving_var_index = Some(r);
                                return;
                            }
                            r += 1;
                        }
                        proof {
                            assert(b.len() == self.m);
                            assert(first_neg_b_from(b, self.m as int) is None);
                            lemma_first_neg_b_none(b, 0);
                        }
                        self.solved = true;
                        self.leaving_var_index = None;
                    },
                }
            },
        }
    }
}

} // verus!
