//! The transition from phase one to phase two of the two-phase method.

use vstd::prelude::*;
use crate::Fraction;
use crate::m::{M, mv_zero, mv_lt};
use crate::rat::{rat_zero, rat_lt};
use crate::tableau::{Tableau, ErrorKind};

verus! {

/// A phase transition with nothing left to clear: a terminal phase-one
/// tableau whose basis holds no artificial column.
pub open spec fn clean_transition(t: Tableau) -> bool {
    &&& t.obj@ == mv_zero()
    &&& t.rc_ok()
    &&& !t.error
    &&& t.basis_ok()
    &&& (forall|i: int| 0 <= i < t.m ==> !artificial_basic(t, i))
    &&& t.n > 0
    &&& t.m > 0
}

/// Whether row `i`'s basic variable carries the artificial penalty cost
/// `-1·M`.
pub open spec fn artificial_basic(t: Tableau, i: int) -> bool {
    &&& t.basis_spec()[i] < t.n
    &&& t.c_spec()[t.basis_spec()[i]] == (crate::m::MV {
        m: crate::rat::rat_neg(crate::rat::rat_one()),
        c: rat_zero(),
    })
}

impl Tableau {
    /// Finds a row whose basic variable carries the artificial penalty cost
    /// `-1·M`, together with that basic column.
    #[verifier::loop_isolation(false)]
    fn find_artificial_row(&self) -> (r: Option<(usize, usize)>)
        requires
            self.wf(),
        ensures
            r matches Some(p) ==> p.0 < self.m && p.1 < self.n && artificial_basic(
                *self,
                p.0 as int,
            ),
            r is None ==> forall|i: int| 0 <= i < self.m ==> !artificial_basic(*self, i),
    {
        let neg_m = M::new(Fraction::from_int(-1), Fraction::zero());
        let mut i: usize = 0;
        while i < self.m
            invariant
                i <= self.m,
                forall|r: int| 0 <= r < i ==> !artificial_basic(*self, r),
            decreases self.m - i,
        {
            let bi = self.basis_indecies[i];
            if bi < self.n {
                if self.c[bi] == neg_m {
                    proof {
                        assert(self.basis_spec()[i as int] == bi as int);
                        assert(self.c_spec()[bi as int] == self.c@[bi as int]@);
                        assert(artificial_basic(*self, i as int));
                    }
                    return Some((i, bi));
                }
                proof {
                    assert(self.basis_spec()[i as int] == bi as int);
                    assert(self.c_spec()[bi as int] == self.c@[bi as int]@);
                    assert(!artificial_basic(*self, i as int));
                }
            } else {
                proof {
                    assert(self.basis_spec()[i as int] == bi as int);
                    assert(!artificial_basic(*self, i as int));
                }
            }
            i += 1;
        }
        None
    }

    /// Ends phase one and resumes solving the real objective. A non-zero
    /// phase-one objective means no feasible point exists without the
    /// artificial variables: the problem is infeasible. Otherwise every row
    /// still basic in an artificial column is pivoted to a real column, or
    /// deleted together with its column when the row is redundant; then the
    /// reduced costs are recomputed against the real cost vector and the
    /// solver runs to a terminal state.
    #[verifier::loop_isolation(false)]
    #[verifier::rlimit(60)]
    pub fn two_phase_second_phase(&mut self)
        requires
            old(self).wf(),
        ensures
            final(self).wf(),
            final(self).solve_algorithm == old(self).solve_algorithm,
            final(self).variable_select_type == old(self).variable_select_type,
            final(self).big_M_solve_algorithm == old(self).big_M_solve_algorithm,
            old(self).obj@ != mv_zero() ==> (final(self).same_tableau(*old(self)) && final(self).error && final(self).error_kind == Some(ErrorKind::Infeasible)),
            old(self).obj@ == mv_zero() ==> (final(self).solved || final(self).error),
            (old(self).obj@ == mv_zero() && !final(self).error) ==> (final(self).solved && !final(self).has_artificial_vars),
            (old(self).obj@ == mv_zero() && !final(self).error && final(self).solve_algorithm
                is Standard) ==> (forall|j: int|
                0 <= j < final(self).n ==> !mv_lt(#[trigger] final(self).rc_spec()[j], mv_zero())),
            (old(self).obj@ == mv_zero() && !final(self).error && final(self).solve_algorithm
                is Dual) ==> (forall|r: int|
                0 <= r < final(self).m ==> !rat_lt(#[trigger] final(self).b_spec()[r], rat_zero())),
            (old(self).obj@ == mv_zero() && !old(self).error && final(self).error) ==> (final(self).error_kind == Some(ErrorKind::ConfigError) || final(self).error_kind == Some(
                ErrorKind::Overflow,
            ) || final(self).error_kind == Some(ErrorKind::Unbounded) || final(self).error_kind
                == Some(ErrorKind::CycleAborted)),
            (clean_transition(*old(self)) && final(self).error) ==> (final(self).error_kind
                == Some(ErrorKind::Overflow) || final(self).error_kind == Some(
                ErrorKind::Unbounded,
            ) || final(self).error_kind == Some(ErrorKind::CycleAborted)),
    {
        if !self.obj.is_zero() {
            self.set_error(
                ErrorKind::Infeasible,
                "Optimal solution is non-zero, therefore it is impossible to solve the LP without an artificial variable. The underlying LP is infeasible.",
            );
            return;
        }
        if self.reduced_cost.len() != self.n {
            self.set_error(
                ErrorKind::ConfigError,
                "The reduced costs have not been computed for the current tableau.",
            );
            return;
        }
        if self.error {
            return;
        }
        let mut fuel: usize = self.m;
        while fuel > 0
            invariant
                self.wf(),
                self.rc_ok(),
                !self.error,
                self.solve_algorithm == old(self).solve_algorithm,
                self.variable_select_type == old(self).variable_select_type,
                self.big_M_solve_algorithm == old(self).big_M_solve_algorithm,
                clean_transition(*old(self)) ==> *self == *old(self),
            decreases fuel,
        {
            let found = self.find_artificial_row();
            let (row_index, col_index) = match found {
                None => {
                    break ;
                },
                Some(p) => p,
            };
            let mut entering: Option<usize> = None;
            let mut j: usize = 0;
            while j < self.n
                invariant
                    j <= self.n,
                    self.wf(),
                    row_index < self.m,
                    entering matches Some(jj) ==> jj < self.n && self.a_spec()[row_index as int][jj as int].n != 0,
                decreases self.n - j,
            {
                if !self.A[row_index][j].is_zero() {
                    proof {
                        assert(self.a_spec()[row_index as int][j as int].n != 0);
                    }
                    entering = Some(j);
                    break ;
                }
                j += 1;
            }
            match entering {
                Some(j) => {
                    if j == col_index {
                        self.remove_row(row_index);
                        self.remove_col(col_index);
                    } else {
                        let ghost pre = *self;
                        self.entering_var_index = Some(j);
                        self.leaving_var_index = Some(row_index);
                        self.pivot();
                        if self.error {
                            proof {
                                assert(pre.a_spec()[row_index as int][j as int].n != 0);
                            }
                            return;
                        }
                    }
                },
                None => {
                    self.set_error(
                        ErrorKind::ConfigError,
                        "Something went wrong during the transition between phases in the two-phase simplex method.",
                    );
                    return;
                },
            }
            fuel = fuel - 1;
        }
        match self.find_artificial_row() {
            Some(_) => {
                self.set_error(
                    ErrorKind::CycleAborted,
                    "Could not drive every artificial variable out of the basis.",
                );
                return;
            },
            None => {},
        }
        self.has_artificial_vars = false;
        self.solved = false;
        proof {
            if clean_transition(*old(self)) {
                assert(self.basis_indecies == old(self).basis_indecies);
                assert(self.m == old(self).m);
                assert(self.n == old(self).n);
                assert forall|i: int| 0 <= i < self.m implies 0 <= #[trigger] self.basis_spec()[i]
                    < self.n by {
                    assert(self.basis_spec()[i] == old(self).basis_spec()[i]);
                }
                assert(self.basis_ok());
            }
        }
        self.calc_reduced_cost();
        if self.error {
            return;
        }
        self.solve();
    }
}

} // verus!
