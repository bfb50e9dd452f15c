//! The Gauss-Jordan pivot step.

use vstd::prelude::*;
use crate::Fraction;
use crate::m::{M, MV};
use crate::rat::{Rat, rat_div_checked};
use crate::tableau::{Tableau, ErrorKind, elim_rat, elim_mv};

verus! {

/// The new matrix entry at `(i, j)` after pivoting on `(l, e)`: the leaving
/// row is divided by the pivot element, and every other row has the leaving
/// row's multiple removed.
pub open spec fn pivot_a_entry(a: Seq<Seq<Rat>>, e: int, l: int, i: int, j: int) -> Option<Rat> {
    if i == l {
        rat_div_checked(a[l][j], a[l][e])
    } else {
        elim_rat(a[i][j], a[l][j], a[i][e], a[l][e])
    }
}

/// The new right-hand side at row `i` after pivoting on `(l, e)`.
pub open spec fn pivot_b_entry(a: Seq<Seq<Rat>>, b: Seq<Rat>, e: int, l: int, i: int) -> Option<
    Rat,
> {
    if i == l {
        rat_div_checked(b[l], a[l][e])
    } else {
        elim_rat(b[i], a[i][e], b[l], a[l][e])
    }
}

/// The new reduced cost of column `j` after pivoting on `(l, e)`.
pub open spec fn pivot_rc_entry(a: Seq<Seq<Rat>>, rc: Seq<MV>, e: int, l: int, j: int) -> Option<
    MV,
> {
    elim_mv(rc[j], a[l][j], rc[e], a[l][e])
}

/// The new objective value after pivoting on `(l, e)`.
pub open spec fn pivot_obj(a: Seq<Seq<Rat>>, b: Seq<Rat>, rc: Seq<MV>, obj: MV, e: int, l: int) -> Option<
    MV,
> {
    elim_mv(obj, b[l], rc[e], a[l][e])
}

pub open spec fn pivot_a_defined(t: Tableau, e: int, l: int) -> bool {
    forall|i: int, j: int|
        0 <= i < t.m && 0 <= j < t.n ==> (#[trigger] pivot_a_entry(t.a_spec(), e, l, i, j)) is Some
}

pub open spec fn pivot_b_defined(t: Tableau, e: int, l: int) -> bool {
    forall|i: int|
        0 <= i < t.m ==> (#[trigger] pivot_b_entry(t.a_spec(), t.b_spec(), e, l, i)) is Some
}

pub open spec fn pivot_rc_defined(t: Tableau, e: int, l: int) -> bool {
    forall|j: int|
        0 <= j < t.n ==> (#[trigger] pivot_rc_entry(t.a_spec(), t.rc_spec(), e, l, j)) is Some
}

/// Whether every checked intermediate of the whole pivot stays within the
/// 64-bit representation.
pub open spec fn pivot_defined(t: Tableau, e: int, l: int) -> bool {
    &&& pivot_a_defined(t, e, l)
    &&& pivot_b_defined(t, e, l)
    &&& pivot_rc_defined(t, e, l)
    &&& pivot_obj(t.a_spec(), t.b_spec(), t.rc_spec(), t.obj@, e, l) is Some
}

impl Tableau {
    /// Builds the pivoted constraint matrix, or reports that an
    /// intermediate left the representable range.
    #[verifier::loop_isolation(false)]
    fn pivot_new_a(&self, e: usize, l: usize, lrow: &Vec<Fraction>, p: Fraction) -> (r: Option<
        Vec<Vec<Fraction>>,
    >)
        requires
            self.wf(),
            e < self.n,
            l < self.m,
            lrow@.len() == self.n,
            forall|k: int| 0 <= k < self.n ==> (#[trigger] lrow@[k])@ == self.a_spec()[l as int][k],
            p@ == self.a_spec()[l as int][e as int],
            p@.n != 0,
        ensures
            r matches Some(v) ==> v@.len() == self.m && (forall|i: int|
                0 <= i < self.m ==> (#[trigger] v@[i])@.len() == self.n) && (forall|i: int, j: int|
                0 <= i < self.m && 0 <= j < self.n ==> pivot_a_entry(self.a_spec(), e as int, l as int, i, j)
                    == Some((#[trigger] v@[i]@[j])@)),
            r is None ==> !pivot_a_defined(*self, e as int, l as int),
    {
        let mut new_a: Vec<Vec<Fraction>> = Vec::new();
        let mut i: usize = 0;
        while i < self.m
            invariant
                i <= self.m,
                new_a@.len() == i,
                forall|r: int| 0 <= r < i ==> (#[trigger] new_a@[r])@.len() == self.n,
                forall|r: int, k: int|
                    0 <= r < i && 0 <= k < self.n ==> pivot_a_entry(
                        self.a_spec(),
                        e as int,
                        l as int,
                        r,
                        k,
                    ) == Some((#[trigger] new_a@[r]@[k])@),
            decreases self.m - i,
        {
            let ei = self.A[i][e];
            let mut row: Vec<Fraction> = Vec::new();
            let mut j: usize = 0;
            while j < self.n
                invariant
                    j <= self.n,
                    i < self.m,
                    row@.len() == j,
                    forall|k: int|
                        0 <= k < j ==> pivot_a_entry(self.a_spec(), e as int, l as int, i as int, k)
                            == Some((#[trigger] row@[k])@),
                decreases self.n - j,
            {
                let v: Fraction;
                if i == l {
                    v = match lrow[j].div(p) {
                        Ok(v) => v,
                        Err(_) => {
                            proof {
                                assert(self.a_spec()[i as int][j as int] == self.A@[i as int]@[j as int]@);
                                assert(self.a_spec()[i as int][e as int] == ei@);
                                assert(pivot_a_entry(
                                    self.a_spec(),
                                    e as int,
                                    l as int,
                                    i as int,
                                    j as int,
                                ) is None);
                            }
                            return None;
                        },
                    };
                } else {
                    let t1 = match lrow[j].mul(ei) {
                        Ok(v) => v,
                        Err(_) => {
                            proof {
                                assert(self.a_spec()[i as int][j as int] == self.A@[i as int]@[j as int]@);
                                assert(self.a_spec()[i as int][e as int] == ei@);
                                assert(pivot_a_entry(
                                    self.a_spec(),
                                    e as int,
                                    l as int,
                                    i as int,
                                    j as int,
                                ) is None);
                            }
                            return None;
                        },
                    };
                    let t2 = match t1.div(p) {
                        Ok(v) => v,
                        Err(_) => {
                            proof {
                                assert(self.a_spec()[i as int][j as int] == self.A@[i as int]@[j as int]@);
                                assert(self.a_spec()[i as int][e as int] == ei@);
                                assert(pivot_a_entry(
                                    self.a_spec(),
                                    e as int,
                                    l as int,
                                    i as int,
                                    j as int,
                                ) is None);
                            }
                            return None;
                        },
                    };
                    v = match self.A[i][j].sub(t2) {
                        Ok(v) => v,
                        Err(_) => {
                            proof {
                                assert(self.a_spec()[i as int][j as int] == self.A@[i as int]@[j as int]@);
                                assert(self.a_spec()[i as int][e as int] == ei@);
                                assert(pivot_a_entry(
                                    self.a_spec(),
                                    e as int,
                                    l as int,
                                    i as int,
                                    j as int,
                                ) is None);
                            }
                            return None;
                        },
                    };
                }
                row.push(v);
                j += 1;
            }
            new_a.push(row);
            i += 1;
        }
        Some(new_a)
    }

    /// Builds the pivoted reduced-cost vector, or reports an overflow.
    #[verifier::loop_isolation(false)]
    fn pivot_new_rc(&self, e: usize, l: usize, lrow: &Vec<Fraction>, p: Fraction) -> (r: Option<
        Vec<M>,
    >)
        requires
            self.wf(),
            self.rc_ok(),
            e < self.n,
            l < self.m,
            lrow@.len() == self.n,
            forall|k: int| 0 <= k < self.n ==> (#[trigger] lrow@[k])@ == self.a_spec()[l as int][k],
            p@ == self.a_spec()[l as int][e as int],
            p@.n != 0,
        ensures
            r matches Some(v) ==> v@.len() == self.n && (forall|j: int|
                0 <= j < self.n ==> pivot_rc_entry(self.a_spec(), self.rc_spec(), e as int, l as int, j)
                    == Some((#[trigger] v@[j])@)),
            r is None ==> !pivot_rc_defined(*self, e as int, l as int),
    {
        let old_rce = self.reduced_cost[e];
        let mut new_rc: Vec<M> = Vec::new();
        let mut j: usize = 0;
        while j < self.n
            invariant
                j <= self.n,
                new_rc@.len() == j,
                forall|k: int|
                    0 <= k < j ==> pivot_rc_entry(self.a_spec(), self.rc_spec(), e as int, l as int, k)
                        == Some((#[trigger] new_rc@[k])@),
            decreases self.n - j,
        {
            let t1 = match old_rce.scale(lrow[j]) {
                Ok(v) => v,
                Err(_) => {
                    proof {
                        assert(self.rc_spec()[j as int] == self.reduced_cost@[j as int]@);
                        assert(self.rc_spec()[e as int] == old_rce@);
                        assert(self.a_spec()[l as int][j as int] == lrow@[j as int]@);
                        assert(pivot_rc_entry(
                            self.a_spec(),
                            self.rc_spec(),
                            e as int,
                            l as int,
                            j as int,
                        ) is None);
                    }
                    return None;
                },
            };
            let t2 = match t1.divide(p) {
                Ok(v) => v,
                Err(_) => {
                    proof {
                        assert(self.rc_spec()[j as int] == self.reduced_cost@[j as int]@);
                        assert(self.rc_spec()[e as int] == old_rce@);
                        assert(self.a_spec()[l as int][j as int] == lrow@[j as int]@);
                        assert(pivot_rc_entry(
                            self.a_spec(),
                            self.rc_spec(),
                            e as int,
                            l as int,
                            j as int,
                        ) is None);
                    }
                    return None;
                },
            };
            let v = match self.reduced_cost[j].sub(t2) {
                Ok(v) => v,
                Err(_) => {
                    proof {
                        assert(self.rc_spec()[j as int] == self.reduced_cost@[j as int]@);
                        assert(self.rc_spec()[e as int] == old_rce@);
                        assert(self.a_spec()[l as int][j as int] == lrow@[j as int]@);
                        assert(pivot_rc_entry(
                            self.a_spec(),
                            self.rc_spec(),
                            e as int,
                            l as int,
                            j as int,
                        ) is None);
                    }
                    return None;
                },
            };
            new_rc.push(v);
            j += 1;
        }
        Some(new_rc)
    }

    /// Builds the pivoted right-hand side, or reports an overflow.
    #[verifier::loop_isolation(false)]
    fn pivot_new_b(&self, e: usize, l: usize, p: Fraction) -> (r: Option<Vec<Fraction>>)
        requires
            self.wf(),
            e < self.n,
            l < self.m,
            p@ == self.a_spec()[l as int][e as int],
            p@.n != 0,
        ensures
            r matches Some(v) ==> v@.len() == self.m && (forall|i: int|
                0 <= i < self.m ==> pivot_b_entry(self.a_spec(), self.b_spec(), e as int, l as int, i)
                    == Some((#[trigger] v@[i])@)),
            r is None ==> !pivot_b_defined(*self, e as int, l as int),
    {
        let old_bl = self.b[l];
        let mut new_b: Vec<Fraction> = Vec::new();
        let mut i: usize = 0;
        while i < self.m
            invariant
                i <= self.m,
                new_b@.len() == i,
                forall|r: int|
                    0 <= r < i ==> pivot_b_entry(self.a_spec(), self.b_spec(), e as int, l as int, r)
                        == Some((#[trigger] new_b@[r])@),
            decreases self.m - i,
        {
            let v: Fraction;
            if i == l {
                v = match old_bl.div(p) {
                    Ok(v) => v,
                    Err(_) => {
                        proof {
                            assert(self.b_spec()[i as int] == self.b@[i as int]@);
                            assert(self.b_spec()[l as int] == old_bl@);
                            assert(self.a_spec()[i as int][e as int] == self.A@[i as int]@[e as int]@);
                            assert(pivot_b_entry(
                                self.a_spec(),
                                self.b_spec(),
                                e as int,
                                l as int,
                                i as int,
                            ) is None);
                        }
                        return None;
                    },
                };
            } else {
                let t1 = match self.A[i][e].mul(old_bl) {
                    Ok(v) => v,
                    Err(_) => {
                        proof {
                            assert(self.b_spec()[i as int] == self.b@[i as int]@);
                            assert(self.b_spec()[l as int] == old_bl@);
                            assert(self.a_spec()[i as int][e as int] == self.A@[i as int]@[e as int]@);
                            assert(pivot_b_entry(
                                self.a_spec(),
                                self.b_spec(),
                                e as int,
                                l as int,
                                i as int,
                            ) is None);
                        }
                        return None;
                    },
                };
                let t2 = match t1.div(p) {
                    Ok(v) => v,
                    Err(_) => {
                        proof {
                            assert(self.b_spec()[i as int] == self.b@[i as int]@);
                            assert(self.b_spec()[l as int] == old_bl@);
                            assert(self.a_spec()[i as int][e as int] == self.A@[i as int]@[e as int]@);
                            assert(pivot_b_entry(
                                self.a_spec(),
                                self.b_spec(),
                                e as int,
                                l as int,
                                i as int,
                            ) is None);
                        }
                        return None;
                    },
                };
                v = match self.b[i].sub(t2) {
                    Ok(v) => v,
                    Err(_) => {
                        proof {
                            assert(self.b_spec()[i as int] == self.b@[i as int]@);
                            assert(self.b_spec()[l as int] == old_bl@);
                            assert(self.a_spec()[i as int][e as int] == self.A@[i as int]@[e as int]@);
                            assert(pivot_b_entry(
                                self.a_spec(),
                                self.b_spec(),
                                e as int,
                                l as int,
                                i as int,
                            ) is None);
                        }
                        return None;
                    },
                };
            }
            new_b.push(v);
            i += 1;
        }
        Some(new_b)
    }

    /// Pivots the tableau on the selected entering column and leaving row:
    /// the leaving row is scaled so the pivot entry becomes one, the
    /// entering column is eliminated from every other row, the right-hand
    /// side, reduced costs and objective receive the same transform, and the
    /// entering column becomes basic for the leaving row. Missing selections
    /// are a configuration failure; a zero pivot entry is a division by
    /// zero; an intermediate outside the 64-bit range is an overflow.
    #[verifier::loop_isolation(false)]
    #[verifier::rlimit(60)]
    pub fn pivot(&mut self)
        requires
            old(self).wf(),
            old(self).rc_ok(),
        ensures
            final(self).wf(),
            final(self).solved == old(self).solved,
            (old(self).entering_var_index is None || old(self).leaving_var_index is None) ==> (
            final(self).same_tableau(*old(self)) && final(self).error && final(self).error_kind
                == Some(ErrorKind::ConfigError)),
            old(self).entering_var_index matches Some(e)
                ==> old(self).leaving_var_index matches Some(l) ==> {
                let ta = old(self).a_spec();
                let tb = old(self).b_spec();
                let trc = old(self).rc_spec();
                &&& (e >= old(self).n || l >= old(self).m) ==> (final(self).same_tableau(
                    *old(self),
                ) && final(self).error && final(self).error_kind == Some(ErrorKind::ConfigError))
                &&& (e < old(self).n && l < old(self).m && ta[l as int][e as int].n == 0) ==> (
                final(self).same_tableau(*old(self)) && final(self).error
                    && final(self).error_kind == Some(ErrorKind::DivisionByZero))
                &&& (e < old(self).n && l < old(self).m && ta[l as int][e as int].n != 0
                    && !pivot_defined(*old(self), e as int, l as int)) ==> (
                final(self).same_tableau(*old(self)) && final(self).error
                    && final(self).error_kind == Some(ErrorKind::Overflow))
                &&& (e < old(self).n && l < old(self).m && ta[l as int][e as int].n != 0
                    && pivot_defined(*old(self), e as int, l as int)) ==> {
                    &&& final(self).error == old(self).error
                    &&& final(self).error_kind == old(self).error_kind
                    &&& final(self).error_message == old(self).error_message
                    &&& final(self).m == old(self).m
                    &&& final(self).n == old(self).n
                    &&& final(self).rc_ok()
                    &&& (forall|i: int, j: int|
                        0 <= i < old(self).m && 0 <= j < old(self).n ==> Some(
                            #[trigger] final(self).a_spec()[i][j],
                        ) == pivot_a_entry(ta, e as int, l as int, i, j))
                    &&& (forall|i: int|
                        0 <= i < old(self).m ==> Some(#[trigger] final(self).b_spec()[i])
                            == pivot_b_entry(ta, tb, e as int, l as int, i))
                    &&& (forall|j: int|
                        0 <= j < old(self).n ==> Some(#[trigger] final(self).rc_spec()[j])
                            == pivot_rc_entry(ta, trc, e as int, l as int, j))
                    &&& Some(final(self).obj@) == pivot_obj(
                        ta,
                        tb,
                        trc,
                        old(self).obj@,
                        e as int,
                        l as int,
                    )
                    &&& final(self).basis_spec() == old(self).basis_spec().update(
                        l as int,
                        e as int,
                    )
                    &&& final(self).c == old(self).c
                    &&& final(self).two_phase_c == old(self).two_phase_c
                    &&& final(self).solution == old(self).solution
                    &&& final(self).has_artificial_vars == old(self).has_artificial_vars
                    &&& final(self).entering_var_index == old(self).entering_var_index
                    &&& final(self).leaving_var_index == old(self).leaving_var_index
                    &&& final(self).solve_algorithm == old(self).solve_algorithm
                    &&& final(self).variable_select_type == old(self).variable_select_type
                    &&& final(self).big_M_solve_algorithm == old(self).big_M_solve_algorithm
                }
            },
    {
        let (e, l) = match (self.entering_var_index, self.leaving_var_index) {
            (Some(e), Some(l)) => (e, l),
            (Some(_), None) => {
                self.set_error(ErrorKind::ConfigError, "No leaving variable has been identified.");
                return;
            },
            (None, Some(_)) => {
                self.set_error(ErrorKind::ConfigError, "No entering variable has been identified.");
                return;
            },
            (None, None) => {
                self.set_error(
                    ErrorKind::ConfigError,
                    "No entering or leaving variables have been identified.",
                );
                return;
            },
        };
        if e >= self.n || l >= self.m {
            self.set_error(
                ErrorKind::ConfigError,
                "The selected entering or leaving index is out of range.",
            );
            return;
        }
        let ghost ta = self.a_spec();
        let ghost tb = self.b_spec();
        let ghost trc = self.rc_spec();
        let p = self.A[l][e];
        if p.is_zero() {
            self.set_error(ErrorKind::DivisionByZero, "The pivot entry is zero.");
            return;
        }
        let mut lrow: Vec<Fraction> = Vec::new();
        let mut j: usize = 0;
        while j < self.n
            invariant
                j <= self.n,
                lrow@.len() == j,
                forall|k: int| 0 <= k < j ==> (#[trigger] lrow@[k])@ == self.a_spec()[l as int][k],
            decreases self.n - j,
        {
            lrow.push(self.A[l][j]);
            j += 1;
        }
        let new_a = match self.pivot_new_a(e, l, &lrow, p) {
            Some(v) => v,
            None => {
                self.set_error(
                    ErrorKind::Overflow,
                    "Exact arithmetic left the 64-bit range during pivoting.",
                );
                return;
            },
        };
        let new_rc = match self.pivot_new_rc(e, l, &lrow, p) {
            Some(v) => v,
            None => {
                self.set_error(
                    ErrorKind::Overflow,
                    "Exact arithmetic left the 64-bit range during pivoting.",
                );
                return;
            },
        };
        let new_b = match self.pivot_new_b(e, l, p) {
            Some(v) => v,
            None => {
                self.set_error(
                    ErrorKind::Overflow,
                    "Exact arithmetic left the 64-bit range during pivoting.",
                );
                return;
            },
        };
        let old_bl = self.b[l];
        let old_rce = self.reduced_cost[e];
        let t1 = match old_rce.scale(old_bl) {
            Ok(v) => v,
            Err(_) => {
                self.set_error(
                    ErrorKind::Overflow,
                    "Exact arithmetic left the 64-bit range during pivoting.",
                );
                return;
            },
        };
        let t2 = match t1.divide(p) {
            Ok(v) => v,
            Err(_) => {
                self.set_error(
                    ErrorKind::Overflow,
                    "Exact arithmetic left the 64-bit range during pivoting.",
                );
                return;
            },
        };
        let new_obj = match self.obj.sub(t2) {
            Ok(v) => v,
            Err(_) => {
                self.set_error(
                    ErrorKind::Overflow,
                    "Exact arithmetic left the 64-bit range during pivoting.",
                );
                return;
            },
        };
        proof {
            assert forall|i: int, j: int| 0 <= i < self.m && 0 <= j < self.n implies (
            #[trigger] pivot_a_entry(ta, e as int, l as int, i, j)) is Some by {
                assert(pivot_a_entry(ta, e as int, l as int, i, j) == Some(new_a@[i]@[j]@));
            }
            assert forall|i: int| 0 <= i < self.m implies (#[trigger] pivot_b_entry(
                ta,
                tb,
                e as int,
                l as int,
                i,
            )) is Some by {
                assert(pivot_b_entry(ta, tb, e as int, l as int, i) == Some(new_b@[i]@));
            }
            assert forall|j: int| 0 <= j < self.n implies (#[trigger] pivot_rc_entry(
                ta,
                trc,
                e as int,
                l as int,
                j,
            )) is Some by {
                assert(pivot_rc_entry(ta, trc, e as int, l as int, j) == Some(new_rc@[j]@));
            }
            assert(pivot_a_defined(*old(self), e as int, l as int));
            assert(pivot_b_defined(*old(self), e as int, l as int));
            assert(pivot_rc_defined(*old(self), e as int, l as int));
        }
        self.obj = new_obj;
        self.A = new_a;
        self.reduced_cost = new_rc;
        self.b = new_b;
        self.basis_indecies.set(l, e);
        proof {
            assert(self.basis_spec() =~= old(self).basis_spec().update(l as int, e as int));
            assert(old_bl@ == tb[l as int]);
            assert(old_rce@ == trc[e as int]);
            assert(Some(self.obj@) == pivot_obj(ta, tb, trc, old(self).obj@, e as int, l as int));
            assert(pivot_defined(*old(self), e as int, l as int));
            assert(forall|i: int, j: int|
                0 <= i < old(self).m && 0 <= j < old(self).n ==> Some(
                    #[trigger] self.a_spec()[i][j],
                ) == pivot_a_entry(ta, e as int, l as int, i, j));
            assert(forall|i: int|
                0 <= i < old(self).m ==> Some(#[trigger] self.b_spec()[i]) == pivot_b_entry(
                    ta,
                    tb,
                    e as int,
                    l as int,
                    i,
                ));
            assert(forall|j: int|
                0 <= j < old(self).n ==> Some(#[trigger] self.rc_spec()[j]) == pivot_rc_entry(
                    ta,
                    trc,
                    e as int,
                    l as int,
                    j,
                ));
        }
    }
}

} // verus!
