//! Finding an initial basis, adding artificial columns where none exists.

use vstd::prelude::*;
use crate::Fraction;
use crate::m::M;
use crate::rat::{Rat, rat_zero, rat_one, rat_neg};
use crate::tableau::{Tableau, ErrorKind, SolveAlgorithm};

verus! {

/// Whether column `j` is the unit vector with its one in row `i`.
pub open spec fn is_unit_col(a: Seq<Seq<Rat>>, m: int, j: int, i: int) -> bool {
    forall|r: int|
        0 <= r < m ==> #[trigger] a[r][j] == (if r == i {
            rat_one()
        } else {
            rat_zero()
        })
}

/// Whether column `j` is the negated unit vector with its minus one in row
/// `i`.
pub open spec fn is_neg_unit_col(a: Seq<Seq<Rat>>, m: int, j: int, i: int) -> bool {
    forall|r: int|
        0 <= r < m ==> #[trigger] a[r][j] == (if r == i {
            rat_neg(rat_one())
        } else {
            rat_zero()
        })
}

/// The first column in `[j, n0)` that is the unit vector for row `i`.
pub open spec fn first_unit_from(a: Seq<Seq<Rat>>, m: int, i: int, j: int, n0: int) -> Option<int>
    decreases n0 - j,
{
    if j < 0 || j >= n0 {
        None
    } else if is_unit_col(a, m, j, i) {
        Some(j)
    } else {
        first_unit_from(a, m, i, j + 1, n0)
    }
}

/// The first column in `[j, n0)` that is the unit vector for row `i`, or
/// its negation; the flag reports a negated match.
pub open spec fn first_unit_or_neg_from(a: Seq<Seq<Rat>>, m: int, i: int, j: int, n0: int) -> Option<
    (int, bool),
>
    decreases n0 - j,
{
    if j < 0 || j >= n0 {
        None
    } else if is_unit_col(a, m, j, i) {
        Some((j, false))
    } else if is_neg_unit_col(a, m, j, i) {
        Some((j, true))
    } else {
        first_unit_or_neg_from(a, m, i, j + 1, n0)
    }
}

/// Whether the dual basis search flips the signs of row `i`: its first
/// matching column is a negated unit vector.
pub open spec fn dual_row_flipped(a: Seq<Seq<Rat>>, m: int, i: int, n0: int) -> bool {
    match first_unit_or_neg_from(a, m, i, 0, n0) {
        Some((j, neg)) => neg,
        None => false,
    }
}

impl Tableau {
    /// Whether column `j` currently holds the unit vector for row `i`.
    #[verifier::loop_isolation(false)]
    fn is_unit_column(&self, j: usize, i: usize) -> (b: bool)
        requires
            self.wf(),
            j < self.n,
            i < self.m,
        ensures
            b <==> is_unit_col(self.a_spec(), self.m as int, j as int, i as int),
    {
        let one = Fraction::one();
        let zero = Fraction::zero();
        let mut r: usize = 0;
        while r < self.m
            invariant
                r <= self.m,
                forall|k: int|
                    0 <= k < r ==> #[trigger] self.a_spec()[k][j as int] == (if k == i {
                        rat_one()
                    } else {
                        rat_zero()
                    }),
            decreases self.m - r,
        {
            let want = if r == i {
                one
            } else {
                zero
            };
            if !(self.A[r][j] == want) {
                proof {
                    assert(self.a_spec()[r as int][j as int] == self.A@[r as int]@[j as int]@);
                    assert(self.a_spec()[r as int][j as int] != (if r == i {
                        rat_one()
                    } else {
                        rat_zero()
                    }));
                }
                return false;
            }
            proof {
                assert(self.a_spec()[r as int][j as int] == self.A@[r as int]@[j as int]@);
            }
            r += 1;
        }
        true
    }

    /// Whether column `j` currently holds the negated unit vector for row
    /// `i`.
    #[verifier::loop_isolation(false)]
    fn is_neg_unit_column(&self, j: usize, i: usize) -> (b: bool)
        requires
            self.wf(),
            j < self.n,
            i < self.m,
        ensures
            b <==> is_neg_unit_col(self.a_spec(), self.m as int, j as int, i as int),
    {
        let neg_one = Fraction::from_int(-1);
        let zero = Fraction::zero();
        let mut r: usize = 0;
        while r < self.m
            invariant
                r <= self.m,
                neg_one@ == rat_neg(rat_one()),
                forall|k: int|
                    0 <= k < r ==> #[trigger] self.a_spec()[k][j as int] == (if k == i {
                        rat_neg(rat_one())
                    } else {
                        rat_zero()
                    }),
            decreases self.m - r,
        {
            let want = if r == i {
                neg_one
            } else {
                zero
            };
            if !(self.A[r][j] == want) {
                proof {
                    assert(self.a_spec()[r as int][j as int] == self.A@[r as int]@[j as int]@);
                }
                return false;
            }
            proof {
                assert(self.a_spec()[r as int][j as int] == self.A@[r as int]@[j as int]@);
            }
            r += 1;
        }
        true
    }

    /// The first of the original `n0` columns that is the unit vector for
    /// row `i`, if any.
    #[verifier::loop_isolation(false)]
    fn find_unit_column(&self, i: usize, n0: usize) -> (r: Option<usize>)
        requires
            self.wf(),
            i < self.m,
            n0 <= self.n,
        ensures
            r matches Some(j) ==> j < n0 && first_unit_from(
                self.a_spec(),
                self.m as int,
                i as int,
                0,
                n0 as int,
            ) == Some(j as int),
            r is None ==> first_unit_from(self.a_spec(), self.m as int, i as int, 0, n0 as int)
                is None,
    {
        let mut j: usize = 0;
        while j < n0
            invariant
                j <= n0,
                first_unit_from(self.a_spec(), self.m as int, i as int, 0, n0 as int)
                    == first_unit_from(self.a_spec(), self.m as int, i as int, j as int, n0 as int),
            decreases n0 - j,
        {
            if self.is_unit_column(j, i) {
                return Some(j);
            }
            j += 1;
        }
        None
    }

    /// Finds a basic column for every row. Under the primal algorithm each
    /// row takes the first column holding its unit vector; a row with none
    /// gets a fresh artificial column with cost `-1·M`. Under the dual
    /// algorithm a negated unit column is also accepted, with the row's
    /// signs flipped; a row with neither keeps the out-of-range marker
    /// `n` in its basis entry for `setup` to resolve.
    #[verifier::loop_isolation(false)]
    #[verifier::rlimit(60)]
    pub fn find_basis_indecies(&mut self)
        requires
            old(self).wf(),
        ensures
            final(self).wf(),
            final(self).m == old(self).m,
            final(self).n >= old(self).n,
            final(self).solve_algorithm == old(self).solve_algorithm,
            final(self).variable_select_type == old(self).variable_select_type,
            final(self).big_M_solve_algorithm == old(self).big_M_solve_algorithm,
            final(self).solved == old(self).solved,
            final(self).reduced_cost == old(self).reduced_cost,
            final(self).obj == old(self).obj,
            old(self).solve_algorithm is Standard ==> {
                &&& final(self).error == old(self).error
                &&& final(self).error_kind == old(self).error_kind
                &&& final(self).b == old(self).b
                &&& final(self).basis_ok()
                &&& (forall|i: int|
                    0 <= i < old(self).m ==> is_unit_col(
                        final(self).a_spec(),
                        old(self).m as int,
                        #[trigger] final(self).basis_spec()[i],
                        i,
                    ))
                &&& (forall|i: int|
                    0 <= i < old(self).m && first_unit_from(
                        old(self).a_spec(),
                        old(self).m as int,
                        i,
                        0,
                        old(self).n as int,
                    ) is Some ==> #[trigger] final(self).basis_spec()[i] == first_unit_from(
                        old(self).a_spec(),
                        old(self).m as int,
                        i,
                        0,
                        old(self).n as int,
                    ).unwrap())
                &&& (forall|i: int|
                    0 <= i < old(self).m && first_unit_from(
                        old(self).a_spec(),
                        old(self).m as int,
                        i,
                        0,
                        old(self).n as int,
                    ) is None ==> #[trigger] final(self).basis_spec()[i] >= old(self).n && final(self).c_spec()[final(self).basis_spec()[i]] == (crate::m::MV {
                        m: rat_neg(rat_one()),
                        c: rat_zero(),
                    }))
                &&& (forall|r: int, j: int|
                    0 <= r < old(self).m && 0 <= j < old(self).n
                        ==> #[trigger] final(self).a_spec()[r][j] == old(self).a_spec()[r][j])
                &&& (forall|j: int|
                    0 <= j < old(self).n ==> #[trigger] final(self).c_spec()[j] == old(self).c_spec()[j])
                &&& final(self).has_artificial_vars == (old(self).has_artificial_vars || exists|i: int|
                    0 <= i < old(self).m && first_unit_from(
                        old(self).a_spec(),
                        old(self).m as int,
                        i,
                        0,
                        old(self).n as int,
                    ) is None)
            },
            old(self).solve_algorithm is Dual ==> {
                let a0 = old(self).a_spec();
                let m = old(self).m as int;
                let n0 = old(self).n as int;
                &&& final(self).n == old(self).n
                &&& final(self).c == old(self).c
                &&& (final(self).error && !old(self).error ==> final(self).error_kind == Some(
                    ErrorKind::Overflow,
                ))
                &&& (!final(self).error ==> {
                    &&& (forall|i: int|
                        0 <= i < m && first_unit_or_neg_from(a0, m, i, 0, n0) is Some
                            ==> #[trigger] final(self).basis_spec()[i] == first_unit_or_neg_from(
                            a0,
                            m,
                            i,
                            0,
                            n0,
                        ).unwrap().0)
                    &&& (forall|i: int|
                        0 <= i < m && first_unit_or_neg_from(a0, m, i, 0, n0) is None
                            ==> #[trigger] final(self).basis_spec()[i] == n0)
                    &&& (forall|i: int, j: int|
                        0 <= i < m && 0 <= j < n0 ==> #[trigger] final(self).a_spec()[i][j] == (
                        if dual_row_flipped(a0, m, i, n0) {
                            rat_neg(a0[i][j])
                        } else {
                            a0[i][j]
                        }))
                    &&& (forall|i: int|
                        0 <= i < m ==> #[trigger] final(self).b_spec()[i] == (if dual_row_flipped(
                            a0,
                            m,
                            i,
                            n0,
                        ) {
                            rat_neg(old(self).b_spec()[i])
                        } else {
                            old(self).b_spec()[i]
                        }))
                    &&& (forall|i: int|
                        0 <= i < m ==> 0 <= #[trigger] final(self).basis_spec()[i] <= n0)
                })
            },
    {
        let ghost a0 = self.a_spec();
        let n0 = self.n;
        match self.solve_algorithm {
            SolveAlgorithm::Standard => {
                let mut i: usize = 0;
                while i < self.m
                    invariant
                        i <= self.m,
                        self.wf(),
                        self.m == old(self).m,
                        self.n >= n0,
                        n0 == old(self).n,
                        a0 == old(self).a_spec(),
                        self.solve_algorithm == old(self).solve_algorithm,
                        self.variable_select_type == old(self).variable_select_type,
                        self.big_M_solve_algorithm == old(self).big_M_solve_algorithm,
                        self.solved == old(self).solved,
                        self.error == old(self).error,
                        self.error_kind == old(self).error_kind,
                        self.error_message == old(self).error_message,
                        self.reduced_cost == old(self).reduced_cost,
                        self.obj == old(self).obj,
                        self.b == old(self).b,
                        self.entering_var_index == old(self).entering_var_index,
                        self.leaving_var_index == old(self).leaving_var_index,
                        self.basis_indecies@.len() == self.m,
                        self.has_artificial_vars == (old(self).has_artificial_vars || exists|r: int|
                            0 <= r < i && first_unit_from(a0, self.m as int, r, 0, n0 as int)
                                is None),
                        forall|r: int, j: int|
                            0 <= r < self.m && 0 <= j < n0 ==> #[trigger] self.a_spec()[r][j]
                                == a0[r][j],
                        forall|j: int|
                            0 <= j < n0 ==> #[trigger] self.c_spec()[j] == old(self).c_spec()[j],
                        forall|r: int|
                            0 <= r < i ==> 0 <= #[trigger] self.basis_spec()[r] < self.n,
                        forall|r: int|
                            0 <= r < i ==> is_unit_col(
                                self.a_spec(),
                                self.m as int,
                                #[trigger] self.basis_spec()[r],
                                r,
                            ),
                        forall|r: int|
                            0 <= r < i && first_unit_from(a0, self.m as int, r, 0, n0 as int)
                                is Some ==> #[trigger] self.basis_spec()[r] == first_unit_from(
                                a0,
                                self.m as int,
                                r,
                                0,
                                n0 as int,
                            ).unwrap(),
                        forall|r: int|
                            0 <= r < i && first_unit_from(a0, self.m as int, r, 0, n0 as int)
                                is None ==> #[trigger] self.basis_spec()[r] >= n0
                                && self.c_spec()[self.basis_spec()[r]] == (crate::m::MV {
                                m: rat_neg(rat_one()),
                                c: rat_zero(),
                            }),
                        forall|r: int|
                            i <= r < self.m ==> #[trigger] self.basis_spec()[r] == old(self).basis_spec()[r],
                    decreases self.m - i,
                {
                    let ghost pre = *self;
                    proof {
                        assert(first_unit_from(self.a_spec(), self.m as int, i as int, 0, n0 as int)
                            == first_unit_from(a0, self.m as int, i as int, 0, n0 as int)) by {
                            lemma_first_unit_same(
                                self.a_spec(),
                                a0,
                                self.m as int,
                                i as int,
                                0,
                                n0 as int,
                            );
                        }
                    }
                    match self.find_unit_column(i, n0) {
                        Some(j) => {
                            proof {
                                lemma_first_unit_is_unit(
                                    self.a_spec(),
                                    self.m as int,
                                    i as int,
                                    0,
                                    n0 as int,
                                );
                                assert(is_unit_col(
                                    self.a_spec(),
                                    self.m as int,
                                    j as int,
                                    i as int,
                                ));
                            }
                            self.basis_indecies.set(i, j);
                            proof {
                                if exists|r: int|
                                    0 <= r < i + 1 && first_unit_from(
                                        a0,
                                        self.m as int,
                                        r,
                                        0,
                                        n0 as int,
                                    ) is None {
                                    let r = choose|r: int|
                                        0 <= r < i + 1 && first_unit_from(
                                            a0,
                                            self.m as int,
                                            r,
                                            0,
                                            n0 as int,
                                        ) is None;
                                    assert(r < i);
                                    assert(exists|rr: int|
                                        0 <= rr < i && first_unit_from(
                                            a0,
                                            self.m as int,
                                            rr,
                                            0,
                                            n0 as int,
                                        ) is None);
                                }
                            }
                        },
                        None => {
                            let neg_m = M::new(Fraction::from_int(-1), Fraction::zero());
                            self.add_col(i, neg_m);
                            proof {
                                assert(first_unit_from(a0, self.m as int, i as int, 0, n0 as int)
                                    is None);
                                assert(exists|r: int|
                                    0 <= r < i + 1 && first_unit_from(
                                        a0,
                                        self.m as int,
                                        r,
                                        0,
                                        n0 as int,
                                    ) is None);
                            }
                        },
                    }
                    proof {
                        assert forall|jj: int| 0 <= jj < n0 implies #[trigger] self.c_spec()[jj]
                            == old(self).c_spec()[jj] by {
                            assert(self.c_spec()[jj] == pre.c_spec()[jj]);
                        }
                        assert forall|r: int, jj: int|
                            0 <= r < self.m && 0 <= jj < n0 implies #[trigger] self.a_spec()[r][jj]
                                == a0[r][jj] by {
                            assert(self.a_spec()[r][jj] == pre.a_spec()[r][jj]);
                        }
                        assert forall|r: int| 0 <= r < i + 1 implies 0 <= #[trigger] self.basis_spec()[r]
                            < self.n by {
                            if r < i {
                                assert(self.basis_spec()[r] == pre.basis_spec()[r]);
                            }
                        }
                        assert forall|r: int| i + 1 <= r < self.m implies #[trigger] self.basis_spec()[r]
                            == old(self).basis_spec()[r] by {
                            assert(self.basis_spec()[r] == pre.basis_spec()[r]);
                        }
                        assert forall|r: int|
                            0 <= r < i + 1 && first_unit_from(a0, self.m as int, r, 0, n0 as int)
                                is Some implies #[trigger] self.basis_spec()[r] == first_unit_from(
                            a0,
                            self.m as int,
                            r,
                            0,
                            n0 as int,
                        ).unwrap() by {
                            if r < i {
                                assert(self.basis_spec()[r] == pre.basis_spec()[r]);
                            }
                        }
                        assert forall|r: int| 0 <= r < i + 1 implies is_unit_col(
                            self.a_spec(),
                            self.m as int,
                            #[trigger] self.basis_spec()[r],
                            r,
                        ) by {
                            if r < i {
                                assert(self.basis_spec()[r] == pre.basis_spec()[r]);
                                let bj = pre.basis_spec()[r];
                                assert(is_unit_col(pre.a_spec(), pre.m as int, bj, r));
                                assert forall|rr: int| 0 <= rr < self.m implies #[trigger] self.a_spec()[rr][bj]
                                    == (if rr == r {
                                    rat_one()
                                } else {
                                    rat_zero()
                                }) by {
                                    assert(pre.a_spec()[rr][bj] == (if rr == r {
                                        rat_one()
                                    } else {
                                        rat_zero()
                                    }));
                                    assert(self.a_spec()[rr][bj] == pre.a_spec()[rr][bj]);
                                }
                            }
                        }
                        assert forall|r: int|
                            0 <= r < i + 1 && first_unit_from(a0, self.m as int, r, 0, n0 as int)
                                is None implies #[trigger] self.basis_spec()[r] >= n0
                            && self.c_spec()[self.basis_spec()[r]] == (crate::m::MV {
                            m: rat_neg(rat_one()),
                            c: rat_zero(),
                        }) by {
                            if r < i {
                                assert(self.basis_spec()[r] == pre.basis_spec()[r]);
                                assert(pre.c_spec()[pre.basis_spec()[r]] == (crate::m::MV {
                                    m: rat_neg(rat_one()),
                                    c: rat_zero(),
                                }));
                                assert(self.c_spec()[pre.basis_spec()[r]] == pre.c_spec()[pre.basis_spec()[r]]);
                            }
                        }
                    }
                    i += 1;
                }
            },
            SolveAlgorithm::Dual => {
                let mut found_cols: Vec<Option<(usize, bool)>> = Vec::new();
                let mut i: usize = 0;
                while i < self.m
                    invariant
                        *self == *old(self),
                        i <= self.m,
                        found_cols@.len() == i,
                        forall|r: int|
                            0 <= r < i && (#[trigger] found_cols@[r]) is Some ==> (
                            found_cols@[r].unwrap().0 < n0 && first_unit_or_neg_from(
                                a0,
                                self.m as int,
                                r,
                                0,
                                n0 as int,
                            ) == Some((found_cols@[r].unwrap().0 as int, found_cols@[r].unwrap().1))),
                        forall|r: int|
                            0 <= r < i && (#[trigger] found_cols@[r]) is None
                                ==> first_unit_or_neg_from(a0, self.m as int, r, 0, n0 as int)
                                is None,
                    decreases self.m - i,
                {
                    let found = self.find_unit_or_neg_column(i);
                    found_cols.push(found);
                    i += 1;
                }
                let mut i: usize = 0;
                while i < self.m
                    invariant
                        i <= self.m,
                        self.wf(),
                        self.m == old(self).m,
                        self.n == n0,
                        n0 == old(self).n,
                        a0 == old(self).a_spec(),
                        self.c == old(self).c,
                        self.solve_algorithm == old(self).solve_algorithm,
                        self.variable_select_type == old(self).variable_select_type,
                        self.big_M_solve_algorithm == old(self).big_M_solve_algorithm,
                        self.solved == old(self).solved,
                        self.error == old(self).error,
                        self.error_kind == old(self).error_kind,
                        self.reduced_cost == old(self).reduced_cost,
                        self.obj == old(self).obj,
                        self.basis_indecies@.len() == self.m,
                        found_cols@.len() == self.m,
                        forall|r: int|
                            0 <= r < self.m && (#[trigger] found_cols@[r]) is Some ==> (
                            found_cols@[r].unwrap().0 < n0 && first_unit_or_neg_from(
                                a0,
                                self.m as int,
                                r,
                                0,
                                n0 as int,
                            ) == Some((found_cols@[r].unwrap().0 as int, found_cols@[r].unwrap().1))),
                        forall|r: int|
                            0 <= r < self.m && (#[trigger] found_cols@[r]) is None
                                ==> first_unit_or_neg_from(a0, self.m as int, r, 0, n0 as int)
                                is None,
                        forall|r: int|
                            0 <= r < i && first_unit_or_neg_from(a0, self.m as int, r, 0, n0 as int)
                                is Some ==> #[trigger] self.basis_spec()[r]
                                == first_unit_or_neg_from(
                                a0,
                                self.m as int,
                                r,
                                0,
                                n0 as int,
                            ).unwrap().0,
                        forall|r: int|
                            0 <= r < i && first_unit_or_neg_from(a0, self.m as int, r, 0, n0 as int)
                                is None ==> #[trigger] self.basis_spec()[r] == n0,
                        forall|r: int| 0 <= r < i ==> 0 <= #[trigger] self.basis_spec()[r] <= n0,
                        forall|r: int, j: int|
                            0 <= r < self.m && 0 <= j < n0 ==> #[trigger] self.a_spec()[r][j] == (
                            if r < i && dual_row_flipped(a0, self.m as int, r, n0 as int) {
                                rat_neg(a0[r][j])
                            } else {
                                a0[r][j]
                            }),
                        forall|r: int|
                            0 <= r < self.m ==> #[trigger] self.b_spec()[r] == (if r < i
                                && dual_row_flipped(a0, self.m as int, r, n0 as int) {
                                rat_neg(old(self).b_spec()[r])
                            } else {
                                old(self).b_spec()[r]
                            }),
                    decreases self.m - i,
                {
                    let ghost pre2 = *self;
                    match found_cols[i] {
                        Some((j, negated)) => {
                            proof {
                                assert(found_cols@[i as int] is Some);
                                assert(first_unit_or_neg_from(a0, self.m as int, i as int, 0, n0 as int)
                                    == Some((j as int, negated)));
                                assert(dual_row_flipped(a0, self.m as int, i as int, n0 as int)
                                    == negated);
                            }
                            self.basis_indecies.set(i, j);
                            proof {
                                assert(self.basis_spec()[i as int] == j as int);
                                assert(0 <= self.basis_spec()[i as int] <= n0);
                            }
                            if negated {
                                let ghost mid = *self;
                                let flipped = self.negate_row(i);
                                if !flipped {
                                    self.set_error(
                                        ErrorKind::Overflow,
                                        "Exact arithmetic left the 64-bit range while reorienting a row.",
                                    );
                                    return;
                                }
                                proof {
                                    assert(self.basis_spec()[i as int] == j as int);
                                    assert forall|jj: int| 0 <= jj < n0 implies #[trigger] self.a_spec()[i as int][jj]
                                        == rat_neg(a0[i as int][jj]) by {
                                        assert(mid.a_spec()[i as int][jj] == pre2.a_spec()[i as int][jj]);
                                        assert(pre2.a_spec()[i as int][jj] == a0[i as int][jj]);
                                    }
                                    assert(self.b_spec()[i as int] == rat_neg(old(self).b_spec()[i as int])) by {
                                        assert(mid.b_spec()[i as int] == pre2.b_spec()[i as int]);
                                        assert(pre2.b_spec()[i as int] == old(self).b_spec()[i as int]);
                                    }
                                    assert forall|rr: int, jj: int|
                                        0 <= rr < self.m && 0 <= jj < n0 && rr != i implies #[trigger] self.a_spec()[rr][jj]
                                        == pre2.a_spec()[rr][jj] by {
                                        assert(self.a_spec()[rr][jj] == mid.a_spec()[rr][jj]);
                                        assert(mid.a_spec()[rr][jj] == pre2.a_spec()[rr][jj]);
                                    }
                                    assert forall|rr: int| 0 <= rr < self.m && rr != i implies #[trigger] self.b_spec()[rr]
                                        == pre2.b_spec()[rr] by {
                                        assert(self.b_spec()[rr] == mid.b_spec()[rr]);
                                        assert(mid.b_spec()[rr] == pre2.b_spec()[rr]);
                                    }
                                    assert forall|rr: int| 0 <= rr < self.m && rr != i implies #[trigger] self.basis_spec()[rr]
                                        == pre2.basis_spec()[rr] by {
                                        assert(self.basis_spec()[rr] == mid.basis_spec()[rr]);
                                    }
                                }
                            }
                        },
                        None => {
                            proof {
                                assert(found_cols@[i as int] is None);
                                assert(first_unit_or_neg_from(a0, self.m as int, i as int, 0, n0 as int)
                                    is None);
                                assert(!dual_row_flipped(a0, self.m as int, i as int, n0 as int));
                            }
                            let marker = self.n;
                            self.basis_indecies.set(i, marker);
                            proof {
                                assert(self.basis_spec()[i as int] == n0 as int);
                                assert(0 <= self.basis_spec()[i as int] <= n0);
                            }
                        },
                    }
                    proof {
                        assert forall|r: int| 0 <= r < i + 1 implies 0 <= #[trigger] self.basis_spec()[r]
                            <= n0 by {
                            if r < i {
                                assert(self.basis_spec()[r] == pre2.basis_spec()[r]);
                                assert(0 <= pre2.basis_spec()[r] <= n0);
                            }
                        }
                        assert forall|r: int|
                            0 <= r < i + 1 && first_unit_or_neg_from(
                                a0,
                                self.m as int,
                                r,
                                0,
                                n0 as int,
                            ) is Some implies #[trigger] self.basis_spec()[r]
                            == first_unit_or_neg_from(a0, self.m as int, r, 0, n0 as int).unwrap().0 by {
                            if r < i {
                                assert(self.basis_spec()[r] == pre2.basis_spec()[r]);
                            }
                        }
                        assert forall|r: int|
                            0 <= r < i + 1 && first_unit_or_neg_from(
                                a0,
                                self.m as int,
                                r,
                                0,
                                n0 as int,
                            ) is None implies #[trigger] self.basis_spec()[r] == n0 by {
                            if r < i {
                                assert(self.basis_spec()[r] == pre2.basis_spec()[r]);
                            }
                        }
                        assert forall|r: int, j: int|
                            0 <= r < self.m && 0 <= j < n0 implies #[trigger] self.a_spec()[r][j]
                            == (if r < i + 1 && dual_row_flipped(a0, self.m as int, r, n0 as int) {
                            rat_neg(a0[r][j])
                        } else {
                            a0[r][j]
                        }) by {
                            if r != i {
                                assert(self.a_spec()[r][j] == pre2.a_spec()[r][j]);
                            }
                        }
                        assert forall|r: int|
                            0 <= r < self.m implies #[trigger] self.b_spec()[r] == (if r < i + 1
                            && dual_row_flipped(a0, self.m as int, r, n0 as int) {
                            rat_neg(old(self).b_spec()[r])
                        } else {
                            old(self).b_spec()[r]
                        }) by {
                            if r != i {
                                assert(self.b_spec()[r] == pre2.b_spec()[r]);
                            }
                        }
                    }
                    i += 1;
                }
            },
        }
    }

    /// The first column holding the unit vector for row `i`, or a negated
    /// unit vector (reported by the flag), if any.
    #[verifier::loop_isolation(false)]
    fn find_unit_or_neg_column(&self, i: usize) -> (r: Option<(usize, bool)>)
        requires
            self.wf(),
            i < self.m,
        ensures
            r matches Some(p) ==> p.0 < self.n && first_unit_or_neg_from(
                self.a_spec(),
                self.m as int,
                i as int,
                0,
                self.n as int,
            ) == Some((p.0 as int, p.1)),
            r is None ==> first_unit_or_neg_from(
                self.a_spec(),
                self.m as int,
                i as int,
                0,
                self.n as int,
            ) is None,
    {
        let mut j: usize = 0;
        while j < self.n
            invariant
                j <= self.n,
                first_unit_or_neg_from(self.a_spec(), self.m as int, i as int, 0, self.n as int)
                    == first_unit_or_neg_from(
                    self.a_spec(),
                    self.m as int,
                    i as int,
                    j as int,
                    self.n as int,
                ),
            decreases self.n - j,
        {
            if self.is_unit_column(j, i) {
                return Some((j, false));
            }
            if self.is_neg_unit_column(j, i) {
                return Some((j, true));
            }
            j += 1;
        }
        None
    }

    /// Multiplies one constraint row and its right-hand side by minus one;
    /// reports failure when a numerator cannot be negated.
    #[verifier::loop_isolation(false)]
    fn negate_row(&mut self, i: usize) -> (ok: bool)
        requires
            old(self).wf(),
            i < old(self).m,
        ensures
            final(self).wf(),
            final(self).m == old(self).m,
            final(self).n == old(self).n,
            final(self).c == old(self).c,
            final(self).basis_indecies == old(self).basis_indecies,
            final(self).reduced_cost == old(self).reduced_cost,
            final(self).two_phase_c == old(self).two_phase_c,
            final(self).solution == old(self).solution,
            final(self).obj == old(self).obj,
            final(self).solved == old(self).solved,
            final(self).error == old(self).error,
            final(self).error_kind == old(self).error_kind,
            final(self).solve_algorithm == old(self).solve_algorithm,
            final(self).variable_select_type == old(self).variable_select_type,
            final(self).big_M_solve_algorithm == old(self).big_M_solve_algorithm,
            ok ==> forall|r: int, jj: int|
                0 <= r < old(self).m && 0 <= jj < old(self).n ==> #[trigger] final(self).a_spec()[r][jj] == (if r == i {
                    rat_neg(old(self).a_spec()[r][jj])
                } else {
                    old(self).a_spec()[r][jj]
                }),
            ok ==> final(self).b_spec() == old(self).b_spec().update(
                i as int,
                rat_neg(old(self).b_spec()[i as int]),
            ),
            !ok ==> *final(self) == *old(self),
    {
        let mut new_row: Vec<Fraction> = Vec::new();
        let mut j: usize = 0;
        while j < self.n
            invariant
                *self == *old(self),
                j <= self.n,
                i < self.m,
                new_row@.len() == j,
                forall|k: int|
                    0 <= k < j ==> (#[trigger] new_row@[k])@ == rat_neg(
                        self.a_spec()[i as int][k],
                    ),
            decreases self.n - j,
        {
            let v = match self.A[i][j].negate() {
                Ok(v) => v,
                Err(_) => {
                    return false;
                },
            };
            new_row.push(v);
            j += 1;
        }
        let new_b = match self.b[i].negate() {
            Ok(v) => v,
            Err(_) => {
                return false;
            },
        };
        let mut new_a: Vec<Vec<Fraction>> = Vec::new();
        let mut r: usize = 0;
        while r < self.m
            invariant
                *self == *old(self),
                r <= self.m,
                i < self.m,
                new_row@.len() == self.n,
                forall|k: int|
                    0 <= k < self.n ==> (#[trigger] new_row@[k])@ == rat_neg(
                        self.a_spec()[i as int][k],
                    ),
                new_a@.len() == r,
                forall|rr: int| 0 <= rr < r ==> (#[trigger] new_a@[rr])@.len() == self.n,
                forall|rr: int, k: int|
                    0 <= rr < r && 0 <= k < self.n ==> (#[trigger] new_a@[rr]@[k])@ == (if rr == i {
                        rat_neg(self.a_spec()[rr][k])
                    } else {
                        self.a_spec()[rr][k]
                    }),
            decreases self.m - r,
        {
            if r == i {
                let mut copy_row: Vec<Fraction> = Vec::new();
                let mut k: usize = 0;
                while k < self.n
                    invariant
                        k <= self.n,
                        new_row@.len() == self.n,
                        copy_row@.len() == k,
                        forall|t: int| 0 <= t < k ==> (#[trigger] copy_row@[t]) == new_row@[t],
                    decreases self.n - k,
                {
                    copy_row.push(new_row[k]);
                    k += 1;
                }
                new_a.push(copy_row);
            } else {
                let mut copy_row: Vec<Fraction> = Vec::new();
                let mut k: usize = 0;
                while k < self.n
                    invariant
                        k <= self.n,
                        r < self.m,
                        copy_row@.len() == k,
                        forall|t: int|
                            0 <= t < k ==> (#[trigger] copy_row@[t]) == self.A@[r as int]@[t],
                    decreases self.n - k,
                {
                    copy_row.push(self.A[r][k]);
                    k += 1;
                }
                new_a.push(copy_row);
            }
            r += 1;
        }
        self.A = new_a;
        self.b.set(i, new_b);
        proof {
            assert(self.b_spec() =~= old(self).b_spec().update(
                i as int,
                rat_neg(old(self).b_spec()[i as int]),
            ));
        }
        true
    }
}

/// A unit-column scan over a matrix agrees with the scan over any matrix
/// equal on the first `n0` columns.
proof fn lemma_first_unit_same(a1: Seq<Seq<Rat>>, a2: Seq<Seq<Rat>>, m: int, i: int, j: int, n0: int)
    requires
        forall|r: int, k: int| 0 <= r < m && 0 <= k < n0 ==> #[trigger] a1[r][k] == a2[r][k],
    ensures
        first_unit_from(a1, m, i, j, n0) == first_unit_from(a2, m, i, j, n0),
    decreases n0 - j,
{
    if 0 <= j && j < n0 {
        assert(is_unit_col(a1, m, j, i) <==> is_unit_col(a2, m, j, i)) by {
            if is_unit_col(a1, m, j, i) {
                assert forall|r: int| 0 <= r < m implies #[trigger] a2[r][j] == (if r == i {
                    rat_one()
                } else {
                    rat_zero()
                }) by {
                    assert(a1[r][j] == (if r == i {
                        rat_one()
                    } else {
                        rat_zero()
                    }));
                }
            }
            if is_unit_col(a2, m, j, i) {
                assert forall|r: int| 0 <= r < m implies #[trigger] a1[r][j] == (if r == i {
                    rat_one()
                } else {
                    rat_zero()
                }) by {
                    assert(a2[r][j] == (if r == i {
                        rat_one()
                    } else {
                        rat_zero()
                    }));
                }
            }
        }
        lemma_first_unit_same(a1, a2, m, i, j + 1, n0);
    }
}

/// An all-zero row matches no unit or negated unit column.
pub proof fn lemma_zero_row_unmatched(a: Seq<Seq<Rat>>, m: int, r: int, j: int, n0: int)
    requires
        0 <= r < m,
        0 <= j,
        forall|jj: int| 0 <= jj < n0 ==> #[trigger] a[r][jj] == rat_zero(),
    ensures
        first_unit_or_neg_from(a, m, r, j, n0) is None,
    decreases n0 - j,
{
    if j < n0 {
        assert(a[r][j] == rat_zero());
        assert(!is_unit_col(a, m, j, r));
        assert(!is_neg_unit_col(a, m, j, r));
        lemma_zero_row_unmatched(a, m, r, j + 1, n0);
    }
}

/// A successful unit-column scan names a unit column in range.
proof fn lemma_first_unit_is_unit(a: Seq<Seq<Rat>>, m: int, i: int, j: int, n0: int)
    requires
        first_unit_from(a, m, i, j, n0) is Some,
    ensures
        j <= first_unit_from(a, m, i, j, n0).unwrap() < n0,
        is_unit_col(a, m, first_unit_from(a, m, i, j, n0).unwrap(), i),
    decreases n0 - j,
{
    if 0 <= j && j < n0 && !is_unit_col(a, m, j, i) {
        lemma_first_unit_is_unit(a, m, i, j + 1, n0);
    }
}

} // verus!
