//! Growing the tableau by one column.

use vstd::prelude::*;
use crate::Fraction;
use crate::m::{M, MV};
use crate::rat::{Rat, rat_zero, rat_one};
use crate::tableau::Tableau;

verus! {

impl Tableau {
    /// Appends a fresh unit column: zero in every row but `row_index`, one
    /// there, with objective cost `c`; the new column becomes the basic
    /// variable of that row. A non-zero `M` coefficient in `c` marks the
    /// column as artificial; under the two-phase method the auxiliary cost
    /// vector charges it `-1`.
    #[verifier::loop_isolation(false)]
    pub fn add_col(&mut self, row_index: usize, c: M)
        requires
            old(self).wf(),
            row_index < old(self).m,
        ensures
            final(self).wf(),
            final(self).m == old(self).m,
            final(self).n == old(self).n + 1,
            final(self).a_spec().len() == old(self).m,
            forall|i: int, j: int|
                0 <= i < old(self).m && 0 <= j < old(self).n ==> final(self).a_spec()[i][j] == old(self).a_spec()[i][j],
            forall|i: int|
                0 <= i < old(self).m && i != row_index ==> final(self).a_spec()[i][old(self).n as int] == rat_zero(),
            final(self).a_spec()[row_index as int][old(self).n as int] == rat_one(),
            final(self).b == old(self).b,
            final(self).c_spec() == old(self).c_spec().push(c@),
            final(self).tpc_spec() == old(self).tpc_spec().push(
                MV { m: rat_zero(), c: Rat { n: -1, d: 1 } },
            ),
            final(self).basis_spec() == old(self).basis_spec().update(
                row_index as int,
                old(self).n as int,
            ),
            final(self).sol_spec() == old(self).sol_spec().push(rat_zero()),
            final(self).has_artificial_vars == (old(self).has_artificial_vars || c@.m
                != rat_zero()),
            final(self).reduced_cost == old(self).reduced_cost,
            final(self).obj == old(self).obj,
            final(self).solved == old(self).solved,
            final(self).error == old(self).error,
            final(self).error_kind == old(self).error_kind,
            final(self).error_message == old(self).error_message,
            final(self).entering_var_index == old(self).entering_var_index,
            final(self).leaving_var_index == old(self).leaving_var_index,
            final(self).solve_algorithm == old(self).solve_algorithm,
            final(self).variable_select_type == old(self).variable_select_type,
            final(self).big_M_solve_algorithm == old(self).big_M_solve_algorithm,
    {
        if !c.m_coeff.is_zero() {
            self.has_artificial_vars = true;
        }
        let mut new_a: Vec<Vec<Fraction>> = Vec::new();
        let mut i: usize = 0;
        while i < self.m
            invariant
                i <= self.m,
                new_a@.len() == i,
                forall|r: int| 0 <= r < i ==> (#[trigger] new_a@[r])@.len() == self.n + 1,
                forall|r: int, j: int|
                    0 <= r < i && 0 <= j < self.n ==> (#[trigger] new_a@[r]@[j]) == self.A@[r]@[j],
                forall|r: int|
                    0 <= r < i && r != row_index ==> (#[trigger] new_a@[r]@[self.n as int])@
                        == rat_zero(),
                i > row_index ==> new_a@[row_index as int]@[self.n as int]@ == rat_one(),
            decreases self.m - i,
        {
            let mut row: Vec<Fraction> = Vec::new();
            let mut j: usize = 0;
            while j < self.n
                invariant
                    j <= self.n,
                    row@.len() == j,
                    forall|k: int| 0 <= k < j ==> (#[trigger] row@[k]) == self.A@[i as int]@[k],
                decreases self.n - j,
            {
                row.push(self.A[i][j]);
                j += 1;
            }
            if i == row_index {
                row.push(Fraction::one());
            } else {
                row.push(Fraction::zero());
            }
            new_a.push(row);
            i += 1;
        }
        self.A = new_a;
        self.c.push(c);
        self.two_phase_c.push(M::new(Fraction::zero(), Fraction::from_int(-1)));
        self.solution.push(Fraction::zero());
        self.basis_indecies.set(row_index, self.n);
        let new_n = self.A[0].len();
        self.n = new_n;
        proof {
            assert(self.a_spec().len() == old(self).m);
            assert(self.c_spec() =~= old(self).c_spec().push(c@));
            assert(self.tpc_spec() =~= old(self).tpc_spec().push(
                MV { m: rat_zero(), c: Rat { n: -1, d: 1 } },
            ));
            assert(self.basis_spec() =~= old(self).basis_spec().update(
                row_index as int,
                old(self).n as int,
            ));
            assert(self.sol_spec() =~= old(self).sol_spec().push(rat_zero()));
            assert(forall|i: int, j: int|
                0 <= i < old(self).m && 0 <= j < old(self).n ==> self.a_spec()[i][j] == old(self).a_spec()[i][j]);
        }
    }
}

} // verus!
