//! One step of the simplex iteration.

use vstd::prelude::*;
use crate::m::{mv_zero, mv_lt};
use crate::rat::{rat_zero, rat_lt};
use crate::tableau::{Tableau, ErrorKind, SolveAlgorithm, VariableSelectType};
use crate::tableau::select_entering_var::{
    first_min_upto, first_neg_from, dual_ratio_defined, dual_best, lemma_first_min_upto_range,
    lemma_first_neg_from_range, lemma_dual_best_props, lemma_dual_best_same,
};
use crate::tableau::select_leaving_var::{
    first_min_b_upto, first_neg_b_from, primal_ratio_defined, primal_best,
    lemma_first_min_b_upto_range, lemma_first_neg_b_from_range, lemma_primal_best_props,
    lemma_primal_best_same,
};
use crate::tableau::pivot::{
    pivot_a_entry, pivot_b_entry, pivot_rc_entry, pivot_obj, pivot_defined,
};

verus! {

impl Tableau {
    /// The column the primal step would enter, under the configured
    /// selection rule: the first index attaining the most negative reduced
    /// cost, or the first negative one under Bland's rule; `None` when no
    /// reduced cost is negative. Meaningful for `n > 0`.
    pub open spec fn entering_choice(self) -> Option<int> {
        match self.variable_select_type {
            VariableSelectType::Standard => {
                let i = first_min_upto(self.rc_spec(), self.n as int);
                if mv_lt(self.rc_spec()[i], mv_zero()) {
                    Some(i)
                } else {
                    None
                }
            },
            VariableSelectType::Bland => first_neg_from(self.rc_spec(), 0),
        }
    }

    /// The row the dual step would leave: the first index attaining the
    /// most negative right-hand side, or the first negative one under
    /// Bland's rule; `None` when no right-hand side is negative. Meaningful
    /// for `m > 0`.
    pub open spec fn dual_leaving_choice(self) -> Option<int> {
        match self.variable_select_type {
            VariableSelectType::Standard => {
                let i = first_min_b_upto(self.b_spec(), self.m as int);
                if rat_lt(self.b_spec()[i], rat_zero()) {
                    Some(i)
                } else {
                    None
                }
            },
            VariableSelectType::Bland => first_neg_b_from(self.b_spec(), 0),
        }
    }

    /// Runs one simplex step. The primal order selects the entering column,
    /// then the leaving row, then pivots; the dual order selects the leaving
    /// row first. The step is deterministic: on a non-terminal tableau it
    /// either marks the tableau solved with the corresponding certificate
    /// (no negative reduced cost, or no negative right-hand side), fails
    /// with a pinned error kind, or applies exactly the pivot of the
    /// selected indices.
    #[verifier::rlimit(100)]
    pub fn iterate(&mut self)
        requires
            old(self).wf(),
            old(self).rc_ok(),
        ensures
            final(self).wf(),
            final(self).rc_ok(),
            final(self).m == old(self).m,
            final(self).n == old(self).n,
            final(self).c == old(self).c,
            final(self).two_phase_c == old(self).two_phase_c,
            final(self).solution == old(self).solution,
            final(self).has_artificial_vars == old(self).has_artificial_vars,
            final(self).solve_algorithm == old(self).solve_algorithm,
            final(self).variable_select_type == old(self).variable_select_type,
            final(self).big_M_solve_algorithm == old(self).big_M_solve_algorithm,
            !old(self).error && final(self).error ==> (final(self).error_kind == Some(
                ErrorKind::ConfigError,
            ) || final(self).error_kind == Some(ErrorKind::Overflow) || final(self).error_kind
                == Some(ErrorKind::Unbounded)),
            (old(self).solve_algorithm is Standard && !old(self).solved && final(self).solved
                && !final(self).error) ==> ((forall|j: int|
                0 <= j < old(self).n ==> !mv_lt(#[trigger] old(self).rc_spec()[j], mv_zero()))
                && final(self).reduced_cost == old(self).reduced_cost && final(self).b == old(self).b && final(self).obj == old(self).obj),
            (old(self).solve_algorithm is Dual && !old(self).solved && final(self).solved
                && !final(self).error) ==> ((forall|r: int|
                0 <= r < old(self).m ==> !rat_lt(#[trigger] old(self).b_spec()[r], rat_zero()))
                && final(self).b == old(self).b),
            old(self).solve_algorithm is Standard && !old(self).solved && !old(self).error ==> {
                let rc = old(self).rc_spec();
                let ta = old(self).a_spec();
                let tb = old(self).b_spec();
                let m = old(self).m as int;
                let n = old(self).n as int;
                &&& n == 0 ==> (final(self).error && final(self).error_kind == Some(
                    ErrorKind::ConfigError,
                ) && final(self).same_data(*old(self)))
                &&& (n > 0 && old(self).entering_choice() is None) ==> (final(self).solved
                    && !final(self).error && final(self).same_data(*old(self)) && final(self).entering_var_index is None)
                &&& (n > 0 && old(self).entering_choice() is Some) ==> {
                    let e = old(self).entering_choice().unwrap();
                    &&& m == 0 ==> (final(self).error && final(self).error_kind == Some(
                        ErrorKind::ConfigError,
                    ) && final(self).same_data(*old(self)))
                    &&& (m > 0 && !primal_ratio_defined(*old(self), e)) ==> (final(self).error
                        && final(self).error_kind == Some(ErrorKind::Overflow) && final(self).same_data(*old(self)))
                    &&& (m > 0 && primal_ratio_defined(*old(self), e) && primal_best(
                        *old(self),
                        e,
                        m,
                    ) is None) ==> (final(self).error && final(self).error_kind == Some(
                        ErrorKind::Unbounded,
                    ) && final(self).same_data(*old(self)) && final(self).leaving_var_index
                        is None)
                    &&& (m > 0 && primal_ratio_defined(*old(self), e) && primal_best(
                        *old(self),
                        e,
                        m,
                    ) is Some) ==> {
                        let l = primal_best(*old(self), e, m).unwrap().0;
                        &&& !pivot_defined(*old(self), e, l) ==> (final(self).error && final(self).error_kind == Some(ErrorKind::Overflow) && final(self).same_data(
                            *old(self),
                        ))
                        &&& pivot_defined(*old(self), e, l) ==> {
                            &&& !final(self).error
                            &&& !final(self).solved
                            &&& final(self).entering_var_index == Some(e as usize)
                            &&& final(self).leaving_var_index == Some(l as usize)
                            &&& (forall|i: int, j: int|
                                0 <= i < m && 0 <= j < n ==> Some(
                                    #[trigger] final(self).a_spec()[i][j],
                                ) == pivot_a_entry(ta, e, l, i, j))
                            &&& (forall|i: int|
                                0 <= i < m ==> Some(#[trigger] final(self).b_spec()[i])
                                    == pivot_b_entry(ta, tb, e, l, i))
                            &&& (forall|j: int|
                                0 <= j < n ==> Some(#[trigger] final(self).rc_spec()[j])
                                    == pivot_rc_entry(ta, rc, e, l, j))
                            &&& Some(final(self).obj@) == pivot_obj(ta, tb, rc, old(self).obj@, e, l)
                            &&& final(self).basis_spec() == old(self).basis_spec().update(l, e)
                        }
                    }
                }
            },
            old(self).solve_algorithm is Dual && !old(self).solved && !old(self).error ==> {
                let rc = old(self).rc_spec();
                let ta = old(self).a_spec();
                let tb = old(self).b_spec();
                let m = old(self).m as int;
                let n = old(self).n as int;
                &&& m == 0 ==> (final(self).error && final(self).error_kind == Some(
                    ErrorKind::ConfigError,
                ) && final(self).same_data(*old(self)))
                &&& (m > 0 && old(self).dual_leaving_choice() is None) ==> (final(self).solved
                    && !final(self).error && final(self).same_data(*old(self)) && final(self).leaving_var_index is None)
                &&& (m > 0 && old(self).dual_leaving_choice() is Some) ==> {
                    let l = old(self).dual_leaving_choice().unwrap();
                    &&& !dual_ratio_defined(*old(self), l) ==> (final(self).error && final(self).error_kind == Some(ErrorKind::Overflow) && final(self).same_data(
                        *old(self),
                    ))
                    &&& (dual_ratio_defined(*old(self), l) && dual_best(*old(self), l, n)
                        is None) ==> (final(self).error && final(self).error_kind == Some(
                        ErrorKind::Unbounded,
                    ) && final(self).same_data(*old(self)) && final(self).entering_var_index
                        is None)
                    &&& (dual_ratio_defined(*old(self), l) && dual_best(*old(self), l, n)
                        is Some) ==> {
                        let e = dual_best(*old(self), l, n).unwrap().0;
                        &&& !pivot_defined(*old(self), e, l) ==> (final(self).error && final(self).error_kind == Some(ErrorKind::Overflow) && final(self).same_data(
                            *old(self),
                        ))
                        &&& pivot_defined(*old(self), e, l) ==> {
                            &&& !final(self).error
                            &&& !final(self).solved
                            &&& final(self).entering_var_index == Some(e as usize)
                            &&& final(self).leaving_var_index == Some(l as usize)
                            &&& (forall|i: int, j: int|
                                0 <= i < m && 0 <= j < n ==> Some(
                                    #[trigger] final(self).a_spec()[i][j],
                                ) == pivot_a_entry(ta, e, l, i, j))
                            &&& (forall|i: int|
                                0 <= i < m ==> Some(#[trigger] final(self).b_spec()[i])
                                    == pivot_b_entry(ta, tb, e, l, i))
                            &&& (forall|j: int|
                                0 <= j < n ==> Some(#[trigger] final(self).rc_spec()[j])
                                    == pivot_rc_entry(ta, rc, e, l, j))
                            &&& Some(final(self).obj@) == pivot_obj(ta, tb, rc, old(self).obj@, e, l)
                            &&& final(self).basis_spec() == old(self).basis_spec().update(l, e)
                        }
                    }
                }
            },
    {
        match self.solve_algorithm {
            SolveAlgorithm::Standard => {
                self.select_entering_var();
                if self.solved || self.error {
                    return;
                }
                let ghost mid1 = *self;
                proof {
                    if !old(self).solved && !old(self).error && old(self).n > 0 {
                        assert(old(self).entering_choice() is Some);
                        assert(mid1.entering_var_index == Some(
                            old(self).entering_choice().unwrap() as usize,
                        )) by {
                            if old(self).variable_select_type is Bland {
                                lemma_first_neg_from_range(old(self).rc_spec(), 0);
                            }
                        }
                    }
                }
                self.select_leaving_var();
                if self.solved || self.error {
                    proof {
                        if !old(self).solved && !old(self).error {
                            assert(mid1.a_spec() == old(self).a_spec());
                            assert(mid1.b_spec() == old(self).b_spec());
                            if old(self).n > 0 && old(self).m > 0 {
                                let e = old(self).entering_choice().unwrap();
                                proof_entering_in_range(*old(self));
                                lemma_primal_best_same(mid1, *old(self), e, old(self).m as int);
                                assert(primal_ratio_defined(mid1, e) == primal_ratio_defined(
                                    *old(self),
                                    e,
                                ));
                            }
                        }
                    }
                    return;
                }
                let ghost mid2 = *self;
                proof {
                    if !old(self).solved && !old(self).error {
                        let e = old(self).entering_choice().unwrap();
                        proof_entering_in_range(*old(self));
                        assert(mid1.a_spec() == old(self).a_spec());
                        assert(mid1.b_spec() == old(self).b_spec());
                        lemma_primal_best_same(mid1, *old(self), e, old(self).m as int);
                        assert(primal_best(*old(self), e, old(self).m as int) is Some);
                        let l = primal_best(*old(self), e, old(self).m as int).unwrap().0;
                        lemma_primal_best_props(*old(self), e, old(self).m as int);
                        assert(mid2.entering_var_index == Some(e as usize));
                        assert(mid2.leaving_var_index == Some(l as usize));
                        assert(mid2.a_spec() == old(self).a_spec());
                        assert(mid2.b_spec() == old(self).b_spec());
                        assert(mid2.rc_spec() == old(self).rc_spec());
                        assert(mid2.a_spec()[l][e].n > 0);
                        assert(pivot_defined(mid2, e, l) == pivot_defined(*old(self), e, l)) by {
                            lemma_pivot_defined_same(mid2, *old(self), e, l);
                        }
                    }
                }
                self.pivot();
            },
            SolveAlgorithm::Dual => {
                self.select_leaving_var();
                if self.solved || self.error {
                    return;
                }
                let ghost mid1 = *self;
                proof {
                    if !old(self).solved && !old(self).error && old(self).m > 0 {
                        assert(old(self).dual_leaving_choice() is Some);
                        assert(mid1.leaving_var_index == Some(
                            old(self).dual_leaving_choice().unwrap() as usize,
                        )) by {
                            if old(self).variable_select_type is Bland {
                                lemma_first_neg_b_from_range(old(self).b_spec(), 0);
                            }
                        }
                    }
                }
                self.select_entering_var();
                if self.solved || self.error {
                    proof {
                        if !old(self).solved && !old(self).error && old(self).m > 0 {
                            let l = old(self).dual_leaving_choice().unwrap();
                            proof_dual_leaving_in_range(*old(self));
                            assert(mid1.a_spec() == old(self).a_spec());
                            assert(mid1.rc_spec() == old(self).rc_spec());
                            lemma_dual_best_same(mid1, *old(self), l, old(self).n as int);
                            assert(dual_ratio_defined(mid1, l) == dual_ratio_defined(
                                *old(self),
                                l,
                            ));
                        }
                    }
                    return;
                }
                let ghost mid2 = *self;
                proof {
                    if !old(self).solved && !old(self).error {
                        let l = old(self).dual_leaving_choice().unwrap();
                        proof_dual_leaving_in_range(*old(self));
                        assert(mid1.a_spec() == old(self).a_spec());
                        assert(mid1.rc_spec() == old(self).rc_spec());
                        lemma_dual_best_same(mid1, *old(self), l, old(self).n as int);
                        assert(dual_best(*old(self), l, old(self).n as int) is Some);
                        let e = dual_best(*old(self), l, old(self).n as int).unwrap().0;
                        lemma_dual_best_props(*old(self), l, old(self).n as int);
                        assert(mid2.entering_var_index == Some(e as usize));
                        assert(mid2.leaving_var_index == Some(l as usize));
                        assert(mid2.a_spec() == old(self).a_spec());
                        assert(mid2.b_spec() == old(self).b_spec());
                        assert(mid2.rc_spec() == old(self).rc_spec());
                        assert(mid2.a_spec()[l][e].n < 0);
                        assert(pivot_defined(mid2, e, l) == pivot_defined(*old(self), e, l)) by {
                            lemma_pivot_defined_same(mid2, *old(self), e, l);
                        }
                    }
                }
                self.pivot();
            },
        }
    }
}

/// The primal entering choice, when it exists, is a real column index.
proof fn proof_entering_in_range(t: Tableau)
    requires
        t.rc_ok(),
        t.n > 0,
        t.entering_choice() is Some,
    ensures
        0 <= t.entering_choice().unwrap() < t.n,
{
    match t.variable_select_type {
        VariableSelectType::Standard => {
            lemma_first_min_upto_range(t.rc_spec(), t.n as int);
        },
        VariableSelectType::Bland => {
            lemma_first_neg_from_range(t.rc_spec(), 0);
        },
    }
}

/// The dual leaving choice, when it exists, is a real row index.
proof fn proof_dual_leaving_in_range(t: Tableau)
    requires
        t.wf(),
        t.m > 0,
        t.dual_leaving_choice() is Some,
    ensures
        0 <= t.dual_leaving_choice().unwrap() < t.m,
{
    match t.variable_select_type {
        VariableSelectType::Standard => {
            lemma_first_min_b_upto_range(t.b_spec(), t.m as int);
        },
        VariableSelectType::Bland => {
            lemma_first_neg_b_from_range(t.b_spec(), 0);
        },
    }
}

/// Whether a pivot stays representable depends only on the data the pivot
/// formulas read.
proof fn lemma_pivot_defined_same(t1: Tableau, t2: Tableau, e: int, l: int)
    requires
        t1.a_spec() == t2.a_spec(),
        t1.b_spec() == t2.b_spec(),
        t1.rc_spec() == t2.rc_spec(),
        t1.obj == t2.obj,
        t1.m == t2.m,
        t1.n == t2.n,
    ensures
        pivot_defined(t1, e, l) == pivot_defined(t2, e, l),
{
}

} // verus!
