//! Removing a column, renumbering the basis consistently.

use vstd::prelude::*;
use crate::Fraction;
use crate::tableau::Tableau;

verus! {

impl Tableau {
    /// Deletes one column: every matrix row, the cost vectors and the
    /// solution lose their entry, any computed reduced costs lose theirs,
    /// and every basis index past the column moves down by one.
    #[verifier::loop_isolation(false)]
    pub fn remove_col(&mut self, col_index: usize)
        requires
            old(self).wf(),
            col_index < old(self).n,
        ensures
            final(self).wf(),
            final(self).m == old(self).m,
            final(self).n == old(self).n - 1,
            final(self).a_spec().len() == old(self).m,
            forall|i: int|
                0 <= i < old(self).m ==> final(self).a_spec()[i] == old(self).a_spec()[i].remove(
                    col_index as int,
                ),
            final(self).c_spec() == old(self).c_spec().remove(col_index as int),
            final(self).tpc_spec() == old(self).tpc_spec().remove(col_index as int),
            final(self).sol_spec() == old(self).sol_spec().remove(col_index as int),
            old(self).rc_ok() ==> final(self).reduced_cost@ == old(self).reduced_cost@.remove(
                col_index as int,
            ),
            !old(self).rc_ok() ==> final(self).reduced_cost == old(self).reduced_cost,
            final(self).basis_spec().len() == old(self).m,
            forall|i: int|
                0 <= i < old(self).m ==> final(self).basis_spec()[i] == (
                if old(self).basis_spec()[i] > col_index {
                    old(self).basis_spec()[i] - 1
                } else {
                    old(self).basis_spec()[i]
                }),
            final(self).b == old(self).b,
            final(self).obj == old(self).obj,
            final(self).solved == old(self).solved,
            final(self).error == old(self).error,
            final(self).error_kind == old(self).error_kind,
            final(self).error_message == old(self).error_message,
            final(self).has_artificial_vars == old(self).has_artificial_vars,
            final(self).entering_var_index == old(self).entering_var_index,
            final(self).leaving_var_index == old(self).leaving_var_index,
            final(self).solve_algorithm == old(self).solve_algorithm,
            final(self).variable_select_type == old(self).variable_select_type,
            final(self).big_M_solve_algorithm == old(self).big_M_solve_algorithm,
    {
        let mut new_a: Vec<Vec<Fraction>> = Vec::new();
        let mut i: usize = 0;
        while i < self.m
            invariant
                i <= self.m,
                new_a@.len() == i,
                forall|r: int|
                    0 <= r < i ==> crate::tableau::row_spec(#[trigger] new_a@[r]) == old(self).a_spec()[r].remove(col_index as int),
                forall|r: int| 0 <= r < i ==> (#[trigger] new_a@[r])@.len() == self.n - 1,
            decreases self.m - i,
        {
            let mut row: Vec<Fraction> = Vec::new();
            let mut j: usize = 0;
            while j < self.n
                invariant
                    j <= self.n,
                    row@.len() == (if j <= col_index {
                        j as int
                    } else {
                        j - 1
                    }),
                    forall|k: int|
                        0 <= k < row@.len() ==> (#[trigger] row@[k]) == (
                        if k < col_index {
                            self.A@[i as int]@[k]
                        } else {
                            self.A@[i as int]@[k + 1]
                        }),
                decreases self.n - j,
            {
                if j != col_index {
                    row.push(self.A[i][j]);
                }
                j += 1;
            }
            proof {
                assert(crate::tableau::row_spec(row) =~= old(self).a_spec()[i as int].remove(
                    col_index as int,
                ));
            }
            new_a.push(row);
            i += 1;
        }
        self.A = new_a;
        if self.reduced_cost.len() == self.n {
            self.reduced_cost.remove(col_index);
        }
        self.c.remove(col_index);
        self.two_phase_c.remove(col_index);
        self.solution.remove(col_index);
        let mut new_basis: Vec<usize> = Vec::new();
        let mut i: usize = 0;
        while i < self.basis_indecies.len()
            invariant
                i <= self.basis_indecies@.len(),
                new_basis@.len() == i,
                forall|r: int|
                    0 <= r < i ==> (#[trigger] new_basis@[r]) as int == (
                    if old(self).basis_spec()[r] > col_index {
                        old(self).basis_spec()[r] - 1
                    } else {
                        old(self).basis_spec()[r]
                    }),
            decreases self.basis_indecies@.len() - i,
        {
            let bi = self.basis_indecies[i];
            if bi > col_index {
                new_basis.push(bi - 1);
            } else {
                new_basis.push(bi);
            }
            i += 1;
        }
        self.basis_indecies = new_basis;
        self.n = self.n - 1;
        proof {
            assert(self.c_spec() =~= old(self).c_spec().remove(col_index as int));
            assert(self.tpc_spec() =~= old(self).tpc_spec().remove(col_index as int));
            assert(self.sol_spec() =~= old(self).sol_spec().remove(col_index as int));
            assert(forall|i: int|
                0 <= i < old(self).m ==> self.a_spec()[i] == old(self).a_spec()[i].remove(
                    col_index as int,
                ));
        }
    }
}

} // verus!
