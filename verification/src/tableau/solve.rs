//! Driving the iteration to a terminal state.

use vstd::prelude::*;
use crate::m::{mv_zero, mv_lt};
use crate::rat::{rat_zero, rat_lt};
use crate::tableau::{Tableau, ErrorKind};
use crate::tableau::select_entering_var::{lemma_first_min_upto_range, lemma_first_neg_from_none};
use crate::tableau::select_leaving_var::{
    lemma_first_min_b_upto_range, lemma_first_neg_b_from_none,
};

verus! {

impl Tableau {
    /// Iterates until the tableau is solved or fails, at most `n + 1`
    /// times. Exhausting the bound without reaching a terminal state is
    /// reported as a cycle abort: a conservative anti-cycling safety net,
    /// distinct from infeasibility and unboundedness, that always leaves
    /// the tableau in a terminal state.
    #[verifier::loop_isolation(false)]
    pub fn solve(&mut self)
        requires
            old(self).wf(),
            old(self).rc_ok(),
        ensures
            final(self).wf(),
            final(self).rc_ok(),
            final(self).solved || final(self).error,
            final(self).m == old(self).m,
            final(self).n == old(self).n,
            final(self).c == old(self).c,
            final(self).two_phase_c == old(self).two_phase_c,
            final(self).solution == old(self).solution,
            final(self).has_artificial_vars == old(self).has_artificial_vars,
            final(self).solve_algorithm == old(self).solve_algorithm,
            final(self).variable_select_type == old(self).variable_select_type,
            final(self).big_M_solve_algorithm == old(self).big_M_solve_algorithm,
            (old(self).solved || old(self).error) ==> *final(self) == *old(self),
            (old(self).solve_algorithm is Standard && !old(self).solved && final(self).solved
                && !final(self).error) ==> (forall|j: int|
                0 <= j < old(self).n ==> !mv_lt(#[trigger] final(self).rc_spec()[j], mv_zero())),
            (old(self).solve_algorithm is Dual && !old(self).solved && final(self).solved
                && !final(self).error) ==> (forall|r: int|
                0 <= r < old(self).m ==> !rat_lt(#[trigger] final(self).b_spec()[r], rat_zero())),
            !old(self).error && final(self).error ==> (final(self).error_kind == Some(
                ErrorKind::ConfigError,
            ) || final(self).error_kind == Some(ErrorKind::Overflow) || final(self).error_kind
                == Some(ErrorKind::Unbounded) || final(self).error_kind == Some(
                ErrorKind::CycleAborted,
            )),
            (old(self).solve_algorithm is Standard && !old(self).solved && !old(self).error
                && old(self).n > 0 && (forall|j: int|
                0 <= j < old(self).n ==> !mv_lt(#[trigger] old(self).rc_spec()[j], mv_zero())))
                ==> (final(self).solved && !final(self).error && final(self).same_data(
                *old(self),
            )),
            (old(self).solve_algorithm is Dual && !old(self).solved && !old(self).error && old(self).m > 0 && (forall|r: int|
                0 <= r < old(self).m ==> !rat_lt(#[trigger] old(self).b_spec()[r], rat_zero())))
                ==> (final(self).solved && !final(self).error && final(self).same_data(
                *old(self),
            )),
            (!old(self).error && old(self).n > 0 && old(self).m > 0 && final(self).error) ==> (
            final(self).error_kind == Some(ErrorKind::Overflow) || final(self).error_kind == Some(
                ErrorKind::Unbounded,
            ) || final(self).error_kind == Some(ErrorKind::CycleAborted)),
    {
        proof {
            if old(self).solve_algorithm is Standard && !old(self).solved && !old(self).error
                && old(self).n > 0 && (forall|j: int|
                0 <= j < old(self).n ==> !mv_lt(#[trigger] old(self).rc_spec()[j], mv_zero())) {
                match old(self).variable_select_type {
                    crate::tableau::VariableSelectType::Standard => {
                        lemma_first_min_upto_range(old(self).rc_spec(), old(self).n as int);
                        assert(old(self).entering_choice() is None);
                    },
                    crate::tableau::VariableSelectType::Bland => {
                        lemma_first_neg_from_none(old(self).rc_spec(), 0);
                        assert(old(self).entering_choice() is None);
                    },
                }
            }
            if old(self).solve_algorithm is Dual && !old(self).solved && !old(self).error && old(self).m > 0 && (forall|r: int|
                0 <= r < old(self).m ==> !rat_lt(#[trigger] old(self).b_spec()[r], rat_zero())) {
                match old(self).variable_select_type {
                    crate::tableau::VariableSelectType::Standard => {
                        lemma_first_min_b_upto_range(old(self).b_spec(), old(self).m as int);
                        assert(old(self).dual_leaving_choice() is None);
                    },
                    crate::tableau::VariableSelectType::Bland => {
                        lemma_first_neg_b_from_none(old(self).b_spec(), 0);
                        assert(old(self).dual_leaving_choice() is None);
                    },
                }
            }
        }
        let mut it: usize = 0;
        while it < self.n
            invariant
                self.wf(),
                self.rc_ok(),
                self.m == old(self).m,
                self.n == old(self).n,
                self.c == old(self).c,
                self.two_phase_c == old(self).two_phase_c,
                self.solution == old(self).solution,
                self.has_artificial_vars == old(self).has_artificial_vars,
                self.solve_algorithm == old(self).solve_algorithm,
                self.variable_select_type == old(self).variable_select_type,
                self.big_M_solve_algorithm == old(self).big_M_solve_algorithm,
                (old(self).solved || old(self).error) ==> *self == *old(self),
                it == 0 ==> *self == *old(self),
                (self.solve_algorithm is Standard && !old(self).solved && self.solved
                    && !self.error) ==> (forall|j: int|
                    0 <= j < self.n ==> !mv_lt(#[trigger] self.rc_spec()[j], mv_zero())),
                (self.solve_algorithm is Dual && !old(self).solved && self.solved && !self.error)
                    ==> (forall|r: int|
                    0 <= r < self.m ==> !rat_lt(#[trigger] self.b_spec()[r], rat_zero())),
                !old(self).error && self.error ==> (self.error_kind == Some(
                    ErrorKind::ConfigError,
                ) || self.error_kind == Some(ErrorKind::Overflow) || self.error_kind == Some(
                    ErrorKind::Unbounded,
                )),
                (!old(self).error && old(self).n > 0 && old(self).m > 0 && self.error) ==> (
                self.error_kind == Some(ErrorKind::Overflow) || self.error_kind == Some(
                    ErrorKind::Unbounded,
                )),
                (self.solve_algorithm is Standard && !old(self).solved && !old(self).error
                    && old(self).n > 0 && old(self).entering_choice() is None && it > 0) ==> (
                self.solved && !self.error && self.same_data(*old(self))),
                (self.solve_algorithm is Dual && !old(self).solved && !old(self).error && old(self).m > 0 && old(self).dual_leaving_choice() is None && it > 0) ==> (self.solved
                    && !self.error && self.same_data(*old(self))),
            decreases self.n - it,
        {
            if self.solved || self.error {
                return;
            }
            let ghost pre = *self;
            self.iterate();
            proof {
                if self.solved && !self.error {
                    if pre.solve_algorithm is Standard {
                        assert(self.rc_spec() =~= pre.rc_spec());
                    } else {
                        assert(self.b_spec() =~= pre.b_spec());
                    }
                }
            }
            it += 1;
        }
        if self.solved || self.error {
            return;
        }
        let ghost pre = *self;
        self.iterate();
        proof {
            if self.solved && !self.error {
                if pre.solve_algorithm is Standard {
                    assert(self.rc_spec() =~= pre.rc_spec());
                } else {
                    assert(self.b_spec() =~= pre.b_spec());
                }
            }
        }
        if !self.solved && !self.error {
            self.set_error(
                ErrorKind::CycleAborted,
                "Stuck in a cycle, terminated the solution process.",
            );
        }
    }
}

} // verus!
