//! Introducing an artificial variable for a row that has no basic column.

use vstd::prelude::*;
use crate::Fraction;
use crate::m::{M, MV};
use crate::rat::{Rat, rat_zero, rat_one, rat_neg};
use crate::tableau::Tableau;

verus! {

impl Tableau {
    /// Adds an artificial column for `row_index`: a unit column with the
    /// symbolic penalty cost `-1·M`, so that any optimum keeps the
    /// artificial variable out of the basis.
    pub fn add_artificial_var(&mut self, row_index: usize)
        requires
            old(self).wf(),
            row_index < old(self).m,
        ensures
            final(self).wf(),
            final(self).m == old(self).m,
            final(self).n == old(self).n + 1,
            forall|i: int, j: int|
                0 <= i < old(self).m && 0 <= j < old(self).n ==> final(self).a_spec()[i][j] == old(self).a_spec()[i][j],
            forall|i: int|
                0 <= i < old(self).m && i != row_index ==> final(self).a_spec()[i][old(self).n as int] == rat_zero(),
            final(self).a_spec()[row_index as int][old(self).n as int] == rat_one(),
            final(self).b == old(self).b,
            final(self).c_spec() == old(self).c_spec().push(
                MV { m: rat_neg(rat_one()), c: rat_zero() },
            ),
            final(self).tpc_spec() == old(self).tpc_spec().push(
                MV { m: rat_zero(), c: Rat { n: -1, d: 1 } },
            ),
            final(self).basis_spec() == old(self).basis_spec().update(
                row_index as int,
                old(self).n as int,
            ),
            final(self).sol_spec() == old(self).sol_spec().push(rat_zero()),
            final(self).has_artificial_vars,
            final(self).reduced_cost == old(self).reduced_cost,
            final(self).obj == old(self).obj,
            final(self).solved == old(self).solved,
            final(self).error == old(self).error,
            final(self).error_kind == old(self).error_kind,
            final(self).entering_var_index == old(self).entering_var_index,
            final(self).leaving_var_index == old(self).leaving_var_index,
            final(self).solve_algorithm == old(self).solve_algorithm,
            final(self).variable_select_type == old(self).variable_select_type,
            final(self).big_M_solve_algorithm == old(self).big_M_solve_algorithm,
    {
        let neg_m_cost = M::new(Fraction::from_int(-1), Fraction::zero());
        self.add_col(row_index, neg_m_cost);
    }
}

} // verus!
