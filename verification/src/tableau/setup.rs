//! Preparing an initial basis and the first reduced costs.

use vstd::prelude::*;
use crate::Fraction;
use crate::m::M;
use crate::rat::{rat_zero, rat_lt};
use crate::tableau::{Tableau, ErrorKind, SolveAlgorithm};
use crate::tableau::find_basis_indecies::{
    is_unit_col, first_unit_or_neg_from, dual_row_flipped, lemma_zero_row_unmatched,
};
use crate::m::{mv_zero, mv_lt};

verus! {

impl Tableau {
    /// Validates the problem and establishes a starting basis. Under the
    /// primal algorithm every right-hand side must be non-negative; then a
    /// basis is found (adding artificial columns as needed) and reduced
    /// costs are computed. Under the dual algorithm negative right-hand
    /// sides are tolerated: rows matching a plain or negated unit column
    /// become basic, rows with no basic column are pivoted in by force or
    /// dropped when vacuous (an unsatisfiable vacuous row is infeasible),
    /// and the start is accepted only if the recomputed reduced costs are
    /// all non-negative, the dual-feasibility precondition of the dual
    /// iteration.
    #[verifier::loop_isolation(false)]
    #[verifier::rlimit(60)]
    pub fn setup(&mut self)
        requires
            old(self).wf(),
        ensures
            final(self).wf(),
            final(self).solve_algorithm == old(self).solve_algorithm,
            final(self).variable_select_type == old(self).variable_select_type,
            final(self).big_M_solve_algorithm == old(self).big_M_solve_algorithm,
            old(self).solve_algorithm is Standard ==> {
                let a0 = old(self).a_spec();
                let m = old(self).m as int;
                let n0 = old(self).n as int;
                &&& (exists|i: int|
                    0 <= i < old(self).m && rat_lt(
                        #[trigger] old(self).b_spec()[i],
                        rat_zero(),
                    )) ==> (final(self).error && final(self).error_kind == Some(
                    ErrorKind::ConfigError,
                ) && final(self).same_tableau(*old(self)))
                &&& (!old(self).error && !(exists|i: int|
                    0 <= i < old(self).m && rat_lt(#[trigger] old(self).b_spec()[i], rat_zero()))
                    && final(self).error) ==> final(self).error_kind == Some(ErrorKind::Overflow)
                &&& !final(self).error ==> (final(self).rc_ok() && final(self).basis_ok() && !(
                exists|i: int|
                    0 <= i < old(self).m && rat_lt(#[trigger] old(self).b_spec()[i], rat_zero())))
                &&& !final(self).error ==> (forall|i: int|
                    0 <= i < final(self).m ==> is_unit_col(
                        final(self).a_spec(),
                        final(self).m as int,
                        #[trigger] final(self).basis_spec()[i],
                        i,
                    ))
                &&& !final(self).error ==> {
                    &&& final(self).b == old(self).b
                    &&& final(self).m == old(self).m
                    &&& final(self).n >= old(self).n
                    &&& (forall|r: int, j: int|
                        0 <= r < m && 0 <= j < n0 ==> #[trigger] final(self).a_spec()[r][j]
                            == a0[r][j])
                    &&& (forall|j: int|
                        0 <= j < n0 ==> #[trigger] final(self).c_spec()[j] == old(self).c_spec()[j])
                    &&& (forall|i: int|
                        0 <= i < m && crate::tableau::find_basis_indecies::first_unit_from(
                            a0,
                            m,
                            i,
                            0,
                            n0,
                        ) is Some ==> #[trigger] final(self).basis_spec()[i]
                            == crate::tableau::find_basis_indecies::first_unit_from(
                            a0,
                            m,
                            i,
                            0,
                            n0,
                        ).unwrap())
                    &&& (forall|i: int|
                        0 <= i < m && crate::tableau::find_basis_indecies::first_unit_from(
                            a0,
                            m,
                            i,
                            0,
                            n0,
                        ) is None ==> #[trigger] final(self).basis_spec()[i] >= n0 && final(self).c_spec()[final(self).basis_spec()[i]] == (crate::m::MV {
                            m: crate::rat::rat_neg(crate::rat::rat_one()),
                            c: rat_zero(),
                        }))
                    &&& final(self).has_artificial_vars == (old(self).has_artificial_vars
                        || exists|i: int|
                        0 <= i < m && crate::tableau::find_basis_indecies::first_unit_from(
                            a0,
                            m,
                            i,
                            0,
                            n0,
                        ) is None)
                    &&& (forall|col: int|
                        0 <= col < final(self).n ==> Some(#[trigger] final(self).rc_spec()[col])
                            == final(self).rc_col(col))
                    &&& Some(final(self).obj@) == crate::tableau::calc_reduced_cost::obj_dot(
                        final(self).basis_cost_spec(),
                        final(self).b_spec(),
                        final(self).m as int,
                    )
                }
            },
            old(self).solve_algorithm is Dual ==> {
                &&& (!old(self).error && final(self).error) ==> (final(self).error_kind == Some(
                    ErrorKind::Overflow,
                ) || final(self).error_kind == Some(ErrorKind::Infeasible) || final(self).error_kind == Some(ErrorKind::ConfigError))
                &&& (!old(self).error && (exists|r: int|
                    0 <= r < old(self).m && (forall|j: int|
                        0 <= j < old(self).n ==> #[trigger] old(self).a_spec()[r][j] == rat_zero())
                        && #[trigger] old(self).b_spec()[r] != rat_zero()) && final(self).error_kind != Some(ErrorKind::Overflow)) ==> (final(self).error && final(self).error_kind == Some(ErrorKind::Infeasible))
                &&& !final(self).error ==> (final(self).rc_ok() && final(self).basis_ok() && (
                forall|j: int|
                    0 <= j < final(self).n ==> !mv_lt(#[trigger] final(self).rc_spec()[j], mv_zero())))
            },
    {
        match self.solve_algorithm {
            SolveAlgorithm::Standard => {
                let mut i: usize = 0;
                while i < self.m
                    invariant
                        *self == *old(self),
                        i <= self.m,
                        forall|r: int|
                            0 <= r < i ==> !rat_lt(#[trigger] self.b_spec()[r], rat_zero()),
                    decreases self.m - i,
                {
                    if self.b[i].is_negative() {
                        proof {
                            assert(rat_lt(self.b_spec()[i as int], rat_zero()));
                        }
                        self.set_error(
                            ErrorKind::ConfigError,
                            "Cannot have negative values for b. Please multiply any rows with a negative b value by -1.",
                        );
                        return;
                    }
                    i += 1;
                }
                self.find_basis_indecies();
                let ghost mid = *self;
                self.calc_reduced_cost();
                proof {
                    if !self.error {
                        assert(self.A == mid.A);
                        assert(self.basis_indecies == mid.basis_indecies);
                        assert(self.b == mid.b);
                        assert(self.c == mid.c);
                        assert(self.a_spec() == mid.a_spec());
                        assert(self.c_spec() == mid.c_spec());
                        assert(self.basis_spec() == mid.basis_spec());
                        assert(self.basis_cost_spec() =~= mid.basis_cost_spec());
                        assert forall|col: int| 0 <= col < self.n implies Some(
                            #[trigger] self.rc_spec()[col],
                        ) == self.rc_col(col) by {
                            assert(Some(self.rc_spec()[col]) == mid.rc_col(col));
                            assert(self.rc_col(col) == mid.rc_col(col));
                        }
                        assert(Some(self.obj@) == crate::tableau::calc_reduced_cost::obj_dot(
                            self.basis_cost_spec(),
                            self.b_spec(),
                            self.m as int,
                        ));
                        assert forall|i: int| 0 <= i < self.m implies is_unit_col(
                            self.a_spec(),
                            self.m as int,
                            #[trigger] self.basis_spec()[i],
                            i,
                        ) by {
                            assert(is_unit_col(
                                mid.a_spec(),
                                mid.m as int,
                                mid.basis_spec()[i],
                                i,
                            ));
                            assert(self.a_spec() == mid.a_spec());
                            assert(self.basis_spec() == mid.basis_spec());
                        }
                    }
                }
            },
            SolveAlgorithm::Dual => {
                let ghost a0 = self.a_spec();
                let ghost b0 = self.b_spec();
                let ghost m0 = self.m as int;
                let n0 = self.n;
                self.find_basis_indecies();
                if self.error {
                    return;
                }
                let ghost fb = *self;
                let mut new_rc: Vec<M> = Vec::new();
                let mut j: usize = 0;
                while j < self.n
                    invariant
                        *self == fb,
                        self.wf(),
                        j <= self.n,
                        new_rc@.len() == j,
                    decreases self.n - j,
                {
                    let v = match self.c[j].negate() {
                        Ok(v) => v,
                        Err(_) => {
                            self.set_error(
                                ErrorKind::Overflow,
                                "Exact arithmetic left the 64-bit range while negating the cost vector.",
                            );
                            return;
                        },
                    };
                    new_rc.push(v);
                    j += 1;
                }
                self.reduced_cost = new_rc;
                self.obj = M::zero();
                // scan for rows that no basis search or forced pivot can
                // serve: an all-zero row is unsatisfiable unless its
                // right-hand side is zero, in which case it is vacuous
                let mut vacuous_rows: Vec<usize> = Vec::new();
                let mut i: usize = 0;
                while i < self.m
                    invariant
                        i <= self.m,
                        self.wf(),
                        self.rc_ok(),
                        self.A == fb.A,
                        self.b == fb.b,
                        self.m == fb.m,
                        self.n == fb.n,
                        self.basis_indecies == fb.basis_indecies,
                        self.error == fb.error,
                        !self.error,
                        self.solve_algorithm == old(self).solve_algorithm,
                        self.variable_select_type == old(self).variable_select_type,
                        self.big_M_solve_algorithm == old(self).big_M_solve_algorithm,
                        vacuous_rows@.len() <= i,
                        forall|t: int|
                            0 <= t < vacuous_rows@.len() ==> (#[trigger] vacuous_rows@[t])
                                < self.m,
                        forall|t: int|
                            0 <= t < vacuous_rows@.len() ==> (#[trigger] vacuous_rows@[t]) as int
                                >= t,
                        forall|t: int|
                            0 <= t < vacuous_rows@.len() - 1 ==> (#[trigger] vacuous_rows@[t])
                                < vacuous_rows@[t + 1],
                        vacuous_rows@.len() > 0 ==> vacuous_rows@[vacuous_rows@.len() - 1] < i,
                        forall|r: int|
                            0 <= r < i ==> !((forall|jj: int|
                                0 <= jj < self.n ==> #[trigger] self.a_spec()[r][jj]
                                    == rat_zero()) && #[trigger] self.b_spec()[r] != rat_zero()),
                    decreases self.m - i,
                {
                    let mut all_zero = true;
                    let mut j: usize = 0;
                    while j < self.n
                        invariant
                            j <= self.n,
                            i < self.m,
                            self.wf(),
                            all_zero ==> (forall|jj: int|
                                0 <= jj < j ==> #[trigger] self.a_spec()[i as int][jj]
                                    == rat_zero()),
                            !all_zero ==> !(forall|jj: int|
                                0 <= jj < self.n ==> #[trigger] self.a_spec()[i as int][jj]
                                    == rat_zero()),
                        decreases self.n - j,
                    {
                        if !self.A[i][j].is_zero() {
                            proof {
                                assert(self.a_spec()[i as int][j as int] != rat_zero());
                            }
                            all_zero = false;
                            break ;
                        }
                        j += 1;
                    }
                    if all_zero {
                        if !self.b[i].is_zero() {
                            self.set_error(
                                ErrorKind::Infeasible,
                                "Cannot satisfy a constraint with an empty row and a non-zero right-hand side. Problem is infeasible.",
                            );
                            return;
                        }
                        vacuous_rows.push(i);
                    }
                    i += 1;
                }
                proof {
                    if !old(self).error && exists|r: int|
                        0 <= r < m0 && (forall|jj: int|
                            0 <= jj < n0 ==> #[trigger] a0[r][jj] == rat_zero()) && #[trigger] b0[r]
                            != rat_zero() {
                        let r = choose|r: int|
                            0 <= r < m0 && (forall|jj: int|
                                0 <= jj < n0 ==> #[trigger] a0[r][jj] == rat_zero())
                                && #[trigger] b0[r] != rat_zero();
                        lemma_zero_row_unmatched(a0, m0, r, 0, n0 as int);
                        assert(!dual_row_flipped(a0, m0, r, n0 as int));
                        assert(self.A == fb.A);
                        assert(self.b == fb.b);
                        assert forall|jj: int| 0 <= jj < self.n implies #[trigger] self.a_spec()[r][jj]
                            == rat_zero() by {
                            assert(self.a_spec()[r][jj] == fb.a_spec()[r][jj]);
                            assert(fb.a_spec()[r][jj] == a0[r][jj]);
                        }
                        assert(self.b_spec()[r] == fb.b_spec()[r]);
                        assert(fb.b_spec()[r] == b0[r]);
                        assert(false);
                    }
                }
                // drop the vacuous rows; each index is lowered by the number
                // of earlier removals
                let mut t: usize = 0;
                while t < vacuous_rows.len()
                    invariant
                        t <= vacuous_rows@.len(),
                        self.wf(),
                        self.rc_ok(),
                        !self.error,
                        self.m + t == fb.m,
                        self.n == fb.n,
                        forall|k: int|
                            0 <= k < vacuous_rows@.len() ==> (#[trigger] vacuous_rows@[k])
                                < fb.m,
                        forall|k: int|
                            0 <= k < vacuous_rows@.len() ==> (#[trigger] vacuous_rows@[k]) as int
                                >= k,
                        forall|k: int|
                            0 <= k < vacuous_rows@.len() - 1 ==> (#[trigger] vacuous_rows@[k])
                                < vacuous_rows@[k + 1],
                        self.solve_algorithm == old(self).solve_algorithm,
                        self.variable_select_type == old(self).variable_select_type,
                        self.big_M_solve_algorithm == old(self).big_M_solve_algorithm,
                    decreases vacuous_rows@.len() - t,
                {
                    let row = vacuous_rows[t];
                    proof {
                        lemma_strict_inc_gap(vacuous_rows@, t as int, vacuous_rows@.len() - 1);
                        assert(row - t < self.m);
                    }
                    self.remove_row(row - t);
                    t += 1;
                }
                // pivot the remaining unmatched rows into the basis by force
                let mut i: usize = 0;
                while i < self.m
                    invariant
                        self.wf(),
                        self.rc_ok(),
                        !self.error,
                        i <= self.m,
                        self.n == fb.n,
                        self.solve_algorithm == old(self).solve_algorithm,
                        self.variable_select_type == old(self).variable_select_type,
                        self.big_M_solve_algorithm == old(self).big_M_solve_algorithm,
                        forall|r: int| 0 <= r < i ==> 0 <= #[trigger] self.basis_spec()[r] < self.n,
                    decreases self.m - i,
                {
                    let ghost pre = *self;
                    let bi = self.basis_indecies[i];
                    if bi >= self.n {
                        let mut entering: Option<usize> = None;
                        let mut j: usize = 0;
                        while j < self.n
                            invariant
                                j <= self.n,
                                self.wf(),
                                i < self.m,
                                entering matches Some(jj) ==> jj < self.n && self.a_spec()[i as int][jj as int].n != 0,
                            decreases self.n - j,
                        {
                            if !self.A[i][j].is_zero() {
                                entering = Some(j);
                                break ;
                            }
                            j += 1;
                        }
                        match entering {
                            Some(j) => {
                                self.entering_var_index = Some(j);
                                self.leaving_var_index = Some(i);
                                self.pivot();
                                if self.error {
                                    proof {
                                        assert(pre.a_spec()[i as int][j as int].n != 0);
                                    }
                                    return;
                                }
                                proof {
                                    assert(self.basis_spec()[i as int] == j as int);
                                    assert forall|r: int| 0 <= r < i implies 0 <= #[trigger] self.basis_spec()[r] < self.n by {
                                        assert(self.basis_spec()[r] == pre.basis_spec()[r]);
                                    }
                                }
                            },
                            None => {
                                if !self.b[i].is_zero() {
                                    self.set_error(
                                        ErrorKind::Infeasible,
                                        "Cannot satisfy a constraint with an empty row and a non-zero right-hand side. Problem is infeasible.",
                                    );
                                    return;
                                }
                                self.remove_row(i);
                                proof {
                                    assert forall|r: int| 0 <= r < i implies 0 <= #[trigger] self.basis_spec()[r] < self.n by {
                                        assert(self.basis_spec()[r] == pre.basis_spec()[r]);
                                    }
                                }
                                continue ;
                            },
                        }
                    } else {
                        proof {
                            assert(self.basis_spec()[i as int] == bi as int);
                        }
                    }
                    i += 1;
                }
                self.calc_reduced_cost();
                if self.error {
                    return;
                }
                let mut j: usize = 0;
                while j < self.n
                    invariant
                        j <= self.n,
                        self.wf(),
                        self.rc_ok(),
                        self.basis_ok(),
                        self.error == false,
                        self.solve_algorithm == old(self).solve_algorithm,
                        self.variable_select_type == old(self).variable_select_type,
                        self.big_M_solve_algorithm == old(self).big_M_solve_algorithm,
                        forall|k: int|
                            0 <= k < j ==> !mv_lt(#[trigger] self.rc_spec()[k], mv_zero()),
                    decreases self.n - j,
                {
                    if self.reduced_cost[j].is_negative() {
                        self.set_error(
                            ErrorKind::ConfigError,
                            "The dual simplex method requires a dual-feasible start: every reduced cost must be non-negative.",
                        );
                        return;
                    }
                    j += 1;
                }
            },
        }
    }
}

/// In a strictly increasing sequence, later entries exceed earlier ones by
/// at least their distance.
proof fn lemma_strict_inc_gap(s: Seq<usize>, t: int, u: int)
    requires
        0 <= t <= u < s.len(),
        forall|k: int| 0 <= k < s.len() - 1 ==> (#[trigger] s[k]) < s[k + 1],
    ensures
        s[u] as int - s[t] as int >= u - t,
    decreases u - t,
{
    if t < u {
        lemma_strict_inc_gap(s, t + 1, u);
    }
}

} // verus!