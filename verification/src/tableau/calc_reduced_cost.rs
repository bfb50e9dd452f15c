//! Computing reduced costs and the objective from the current basis.

use vstd::prelude::*;
use crate::Fraction;
use crate::m::{M, MV, mv_zero, mv_scale_checked, mv_add_checked, mv_sub_checked};
use crate::rat::Rat;
use crate::tableau::{Tableau, ErrorKind, BigMMode};

verus! {

/// The checked dot product of the basis costs with column `col` of the
/// matrix, over the first `rows` rows, folded left from zero.
pub open spec fn cost_dot(a: Seq<Seq<Rat>>, bc: Seq<MV>, col: int, rows: int) -> Option<MV>
    decreases rows,
{
    if rows <= 0 {
        Some(mv_zero())
    } else {
        match cost_dot(a, bc, col, rows - 1) {
            None => None,
            Some(acc) => match mv_scale_checked(bc[rows - 1], a[rows - 1][col]) {
                None => None,
                Some(t) => mv_add_checked(acc, t),
            },
        }
    }
}

/// The checked dot product of the basis costs with the right-hand side over
/// the first `rows` rows: the current objective value.
pub open spec fn obj_dot(bc: Seq<MV>, b: Seq<Rat>, rows: int) -> Option<MV>
    decreases rows,
{
    if rows <= 0 {
        Some(mv_zero())
    } else {
        match obj_dot(bc, b, rows - 1) {
            None => None,
            Some(acc) => match mv_scale_checked(bc[rows - 1], b[rows - 1]) {
                None => None,
                Some(t) => mv_add_checked(acc, t),
            },
        }
    }
}

impl Tableau {
    /// The cost of each row's basic variable, under the phase's active cost
    /// vector.
    pub open spec fn basis_cost_spec(self) -> Seq<MV> {
        Seq::new(self.m as nat, |r: int| self.active_cost()[self.basis_spec()[r]])
    }

    /// The checked reduced cost of one column: basis costs dotted with the
    /// column, minus the column's own cost.
    pub open spec fn rc_col(self, col: int) -> Option<MV> {
        match cost_dot(self.a_spec(), self.basis_cost_spec(), col, self.m as int) {
            None => None,
            Some(s) => mv_sub_checked(s, self.active_cost()[col]),
        }
    }

    /// Whether every reduced cost and the objective stay representable.
    pub open spec fn calc_rc_defined(self) -> bool {
        &&& (forall|col: int| 0 <= col < self.n ==> (#[trigger] self.rc_col(col)) is Some)
        &&& obj_dot(self.basis_cost_spec(), self.b_spec(), self.m as int) is Some
    }

    /// Recomputes the reduced-cost vector and the objective value from the
    /// current basis: `reduced_cost[col] = Σ_row A[row][col]·basis_cost[row]
    /// − cost[col]` and `obj = Σ_row basis_cost[row]·b[row]`, where the
    /// basis costs come from the auxiliary vector during phase one of the
    /// two-phase method and from the real costs otherwise.
    #[verifier::loop_isolation(false)]
    #[verifier::rlimit(60)]
    pub fn calc_reduced_cost(&mut self)
        requires
            old(self).wf(),
        ensures
            final(self).wf(),
            final(self).solved == old(self).solved,
            !old(self).basis_ok() ==> (final(self).same_tableau(*old(self)) && final(self).error
                && final(self).error_kind == Some(ErrorKind::ConfigError)),
            old(self).basis_ok() && !old(self).calc_rc_defined() ==> (final(self).same_tableau(
                *old(self),
            ) && final(self).error && final(self).error_kind == Some(ErrorKind::Overflow)),
            old(self).basis_ok() && old(self).calc_rc_defined() ==> {
                &&& final(self).error == old(self).error
                &&& final(self).error_kind == old(self).error_kind
                &&& final(self).error_message == old(self).error_message
                &&& final(self).rc_ok()
                &&& (forall|col: int|
                    0 <= col < old(self).n ==> Some(#[trigger] final(self).rc_spec()[col]) == old(
                        self,
                    ).rc_col(col))
                &&& Some(final(self).obj@) == obj_dot(
                    old(self).basis_cost_spec(),
                    old(self).b_spec(),
                    old(self).m as int,
                )
                &&& final(self).A == old(self).A
                &&& final(self).b == old(self).b
                &&& final(self).c == old(self).c
                &&& final(self).m == old(self).m
                &&& final(self).n == old(self).n
                &&& final(self).basis_indecies == old(self).basis_indecies
                &&& final(self).two_phase_c == old(self).two_phase_c
                &&& final(self).solution == old(self).solution
                &&& final(self).has_artificial_vars == old(self).has_artificial_vars
                &&& final(self).entering_var_index == old(self).entering_var_index
                &&& final(self).leaving_var_index == old(self).leaving_var_index
                &&& final(self).solve_algorithm == old(self).solve_algorithm
                &&& final(self).variable_select_type == old(self).variable_select_type
                &&& final(self).big_M_solve_algorithm == old(self).big_M_solve_algorithm
            },
    {
        let two_phase_active = self.has_artificial_vars && self.big_M_solve_algorithm
            == BigMMode::TwoPhase;
        let mut bc: Vec<M> = Vec::new();
        let mut row: usize = 0;
        while row < self.m
            invariant
                *self == *old(self),
                row <= self.m,
                bc@.len() == row,
                forall|r: int| 0 <= r < row ==> 0 <= #[trigger] self.basis_spec()[r] < self.n,
                forall|r: int| 0 <= r < row ==> (#[trigger] bc@[r])@ == self.basis_cost_spec()[r],
            decreases self.m - row,
        {
            let bi = self.basis_indecies[row];
            if bi >= self.n {
                proof {
                    assert(self.basis_spec()[row as int] == bi as int);
                    assert(!self.basis_ok());
                }
                self.set_error(
                    ErrorKind::ConfigError,
                    "A basis index falls outside the coefficient matrix.",
                );
                return;
            }
            if two_phase_active {
                bc.push(self.two_phase_c[bi]);
            } else {
                bc.push(self.c[bi]);
            }
            row += 1;
        }
        let ghost bcs = self.basis_cost_spec();
        proof {
            assert(forall|r: int| 0 <= r < self.m ==> (#[trigger] bc@[r])@ == bcs[r]);
        }
        let mut new_rc: Vec<M> = Vec::new();
        let mut col: usize = 0;
        while col < self.n
            invariant
                *self == *old(self),
                col <= self.n,
                new_rc@.len() == col,
                bc@.len() == self.m,
                forall|r: int| 0 <= r < self.m ==> (#[trigger] bc@[r])@ == bcs[r],
                forall|k: int|
                    0 <= k < col ==> self.rc_col(k) == Some((#[trigger] new_rc@[k])@),
            decreases self.n - col,
        {
            let mut acc = M::zero();
            let mut row: usize = 0;
            while row < self.m
                invariant
                    *self == *old(self),
                    row <= self.m,
                    col < self.n,
                    bc@.len() == self.m,
                    forall|r: int| 0 <= r < self.m ==> (#[trigger] bc@[r])@ == bcs[r],
                    Some(acc@) == cost_dot(self.a_spec(), bcs, col as int, row as int),
                decreases self.m - row,
            {
                let t = match bc[row].scale(self.A[row][col]) {
                    Ok(v) => v,
                    Err(_) => {
                        proof {
                            assert(self.a_spec()[row as int][col as int] == self.A@[row as int]@[col as int]@);
                            assert(cost_dot(self.a_spec(), bcs, col as int, row + 1) is None);
                            lemma_cost_dot_none(self.a_spec(), bcs, col as int, row + 1, self.m as int);
                            assert(self.rc_col(col as int) is None);
                        }
                        self.set_error(
                            ErrorKind::Overflow,
                            "Exact arithmetic left the 64-bit range while computing reduced costs.",
                        );
                        return;
                    },
                };
                acc = match acc.add(t) {
                    Ok(v) => v,
                    Err(_) => {
                        proof {
                            assert(cost_dot(self.a_spec(), bcs, col as int, row + 1) is None);
                            lemma_cost_dot_none(self.a_spec(), bcs, col as int, row + 1, self.m as int);
                            assert(self.rc_col(col as int) is None);
                        }
                        self.set_error(
                            ErrorKind::Overflow,
                            "Exact arithmetic left the 64-bit range while computing reduced costs.",
                        );
                        return;
                    },
                };
                row += 1;
            }
            let cost_col = if two_phase_active {
                self.two_phase_c[col]
            } else {
                self.c[col]
            };
            let v = match acc.sub(cost_col) {
                Ok(v) => v,
                Err(_) => {
                    proof {
                        assert(self.rc_col(col as int) is None);
                    }
                    self.set_error(
                        ErrorKind::Overflow,
                        "Exact arithmetic left the 64-bit range while computing reduced costs.",
                    );
                    return;
                },
            };
            new_rc.push(v);
            col += 1;
        }
        let mut obj_acc = M::zero();
        let mut row: usize = 0;
        while row < self.m
            invariant
                *self == *old(self),
                row <= self.m,
                bc@.len() == self.m,
                new_rc@.len() == self.n,
                forall|r: int| 0 <= r < self.m ==> (#[trigger] bc@[r])@ == bcs[r],
                forall|k: int| 0 <= k < self.n ==> self.rc_col(k) == Some((#[trigger] new_rc@[k])@),
                Some(obj_acc@) == obj_dot(bcs, self.b_spec(), row as int),
            decreases self.m - row,
        {
            let t = match bc[row].scale(self.b[row]) {
                Ok(v) => v,
                Err(_) => {
                    proof {
                        assert(self.b_spec()[row as int] == self.b@[row as int]@);
                        assert(obj_dot(bcs, self.b_spec(), row + 1) is None);
                        lemma_obj_dot_none(bcs, self.b_spec(), row + 1, self.m as int);
                    }
                    self.set_error(
                        ErrorKind::Overflow,
                        "Exact arithmetic left the 64-bit range while computing the objective.",
                    );
                    return;
                },
            };
            obj_acc = match obj_acc.add(t) {
                Ok(v) => v,
                Err(_) => {
                    proof {
                        assert(obj_dot(bcs, self.b_spec(), row + 1) is None);
                        lemma_obj_dot_none(bcs, self.b_spec(), row + 1, self.m as int);
                    }
                    self.set_error(
                        ErrorKind::Overflow,
                        "Exact arithmetic left the 64-bit range while computing the objective.",
                    );
                    return;
                },
            };
            row += 1;
        }
        proof {
            assert forall|k: int| 0 <= k < self.n implies (#[trigger] self.rc_col(k)) is Some by {
                assert(self.rc_col(k) == Some(new_rc@[k]@));
            }
            assert(old(self).calc_rc_defined());
        }
        self.reduced_cost = new_rc;
        self.obj = obj_acc;
    }
}

/// A failed partial dot product fails the whole dot product.
proof fn lemma_cost_dot_none(a: Seq<Seq<Rat>>, bc: Seq<MV>, col: int, k: int, rows: int)
    requires
        0 <= k <= rows,
        cost_dot(a, bc, col, k) is None,
    ensures
        cost_dot(a, bc, col, rows) is None,
    decreases rows - k,
{
    if k < rows {
        lemma_cost_dot_none(a, bc, col, k + 1, rows);
    }
}

/// A failed partial objective sum fails the whole sum.
proof fn lemma_obj_dot_none(bc: Seq<MV>, b: Seq<Rat>, k: int, rows: int)
    requires
        0 <= k <= rows,
        obj_dot(bc, b, k) is None,
    ensures
        obj_dot(bc, b, rows) is None,
    decreases rows - k,
{
    if k < rows {
        lemma_obj_dot_none(bc, b, k + 1, rows);
    }
}

} // verus!
