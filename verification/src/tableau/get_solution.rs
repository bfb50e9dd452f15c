//! Reading the solution vector off the final basis.

use vstd::prelude::*;
use crate::rat::Rat;
use crate::tableau::{Tableau, ErrorKind};

verus! {

/// The solution vector after writing, for each of the first `k` rows in
/// order, the row's right-hand side at the row's basic column.
pub open spec fn fill_solution(sol: Seq<Rat>, basis: Seq<int>, b: Seq<Rat>, k: int) -> Seq<Rat>
    decreases k,
{
    if k <= 0 {
        sol
    } else {
        fill_solution(sol, basis, b, k - 1).update(basis[k - 1], b[k - 1])
    }
}

impl Tableau {
    /// Fills the solution vector: each basic variable takes its row's
    /// right-hand side; non-basic variables keep their current (zero)
    /// entries. A basis index outside the solution vector is recorded as a
    /// configuration failure.
    pub fn get_solution(&mut self)
        requires
            old(self).wf(),
        ensures
            final(self).wf(),
            old(self).basis_ok() ==> final(self).error == old(self).error && final(self).error_kind == old(self).error_kind && final(self).error_message == old(self).error_message && final(self).sol_spec() == fill_solution(
                old(self).sol_spec(),
                old(self).basis_spec(),
                old(self).b_spec(),
                old(self).m as int,
            ),
            !old(self).basis_ok() ==> final(self).error && final(self).error_kind == Some(
                ErrorKind::ConfigError,
            ),
            final(self).A == old(self).A,
            final(self).b == old(self).b,
            final(self).c == old(self).c,
            final(self).m == old(self).m,
            final(self).n == old(self).n,
            final(self).obj == old(self).obj,
            final(self).basis_indecies == old(self).basis_indecies,
            final(self).reduced_cost == old(self).reduced_cost,
            final(self).two_phase_c == old(self).two_phase_c,
            final(self).solved == old(self).solved,
            final(self).has_artificial_vars == old(self).has_artificial_vars,
            final(self).entering_var_index == old(self).entering_var_index,
            final(self).leaving_var_index == old(self).leaving_var_index,
            final(self).solve_algorithm == old(self).solve_algorithm,
            final(self).variable_select_type == old(self).variable_select_type,
            final(self).big_M_solve_algorithm == old(self).big_M_solve_algorithm,
    {
        let mut i: usize = 0;
        while i < self.m
            invariant
                i <= self.m,
                self.wf(),
                self.A == old(self).A,
                self.b == old(self).b,
                self.c == old(self).c,
                self.m == old(self).m,
                self.n == old(self).n,
                self.obj == old(self).obj,
                self.basis_indecies == old(self).basis_indecies,
                self.reduced_cost == old(self).reduced_cost,
                self.two_phase_c == old(self).two_phase_c,
                self.solved == old(self).solved,
                self.error == old(self).error,
                self.error_kind == old(self).error_kind,
                self.error_message == old(self).error_message,
                self.has_artificial_vars == old(self).has_artificial_vars,
                self.entering_var_index == old(self).entering_var_index,
                self.leaving_var_index == old(self).leaving_var_index,
                self.solve_algorithm == old(self).solve_algorithm,
                self.variable_select_type == old(self).variable_select_type,
                self.big_M_solve_algorithm == old(self).big_M_solve_algorithm,
                forall|r: int| 0 <= r < i ==> 0 <= #[trigger] old(self).basis_spec()[r] < old(self).n,
                self.sol_spec() == fill_solution(
                    old(self).sol_spec(),
                    old(self).basis_spec(),
                    old(self).b_spec(),
                    i as int,
                ),
            decreases self.m - i,
        {
            let bi = self.basis_indecies[i];
            if bi >= self.solution.len() {
                proof {
                    assert(old(self).basis_spec()[i as int] == bi as int);
                    assert(!old(self).basis_ok());
                }
                self.set_error(
                    ErrorKind::ConfigError,
                    "A basis index falls outside the solution vector.",
                );
                return;
            }
            let v = self.b[i];
            self.solution.set(bi, v);
            proof {
                assert(self.sol_spec() =~= fill_solution(
                    old(self).sol_spec(),
                    old(self).basis_spec(),
                    old(self).b_spec(),
                    i + 1,
                ));
            }
            i += 1;
        }
    }
}

} // verus!
