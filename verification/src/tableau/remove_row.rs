//! Removing a redundant constraint row.

use vstd::prelude::*;
use crate::tableau::Tableau;

verus! {

impl Tableau {
    /// Deletes one constraint row: the matrix row, its right-hand side and
    /// its basis entry all go, and the row count shrinks by one.
    pub fn remove_row(&mut self, row_index: usize)
        requires
            old(self).wf(),
            row_index < old(self).m,
        ensures
            final(self).wf(),
            final(self).m == old(self).m - 1,
            final(self).n == old(self).n,
            final(self).A@ == old(self).A@.remove(row_index as int),
            final(self).b@ == old(self).b@.remove(row_index as int),
            final(self).basis_indecies@ == old(self).basis_indecies@.remove(row_index as int),
            final(self).a_spec() == old(self).a_spec().remove(row_index as int),
            final(self).b_spec() == old(self).b_spec().remove(row_index as int),
            final(self).basis_spec() == old(self).basis_spec().remove(row_index as int),
            final(self).c == old(self).c,
            final(self).two_phase_c == old(self).two_phase_c,
            final(self).reduced_cost == old(self).reduced_cost,
            final(self).solution == old(self).solution,
            final(self).obj == old(self).obj,
            final(self).solved == old(self).solved,
            final(self).error == old(self).error,
            final(self).error_kind == old(self).error_kind,
            final(self).error_message == old(self).error_message,
            final(self).has_artificial_vars == old(self).has_artificial_vars,
            final(self).entering_var_index == old(self).entering_var_index,
            final(self).leaving_var_index == old(self).leaving_var_index,
            final(self).solve_algorithm == old(self).solve_algorithm,
            final(self).variable_select_type == old(self).variable_select_type,
            final(self).big_M_solve_algorithm == old(self).big_M_solve_algorithm,
    {
        self.A.remove(row_index);
        self.b.remove(row_index);
        self.basis_indecies.remove(row_index);
        self.m = self.m - 1;
        proof {
            assert(self.a_spec() =~= old(self).a_spec().remove(row_index as int));
            assert(self.b_spec() =~= old(self).b_spec().remove(row_index as int));
            assert(self.basis_spec() =~= old(self).basis_spec().remove(row_index as int));
        }
    }
}

} // verus!
