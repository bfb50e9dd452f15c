//! The simplex tableau: the dictionary form of a linear program, together
//! with the solver state that `setup`, `iterate`, `pivot` and the two-phase
//! strategy maintain.

#![allow(non_snake_case)]

pub mod add_artificial_var;
pub mod add_col;
pub mod calc_reduced_cost;
pub mod find_basis_indecies;
pub mod get_solution;
pub mod iterate;
pub mod laws;
pub mod pivot;
pub mod remove_col;
pub mod remove_row;
pub mod select_entering_var;
pub mod select_leaving_var;
pub mod setup;
pub mod solve;
pub mod two_phase_second_phase;

use vstd::prelude::*;
use vstd::string::StringExecFns;
use crate::{Fraction, FracError};
use crate::m::{M, MV, mv_zero};
use crate::rat::{Rat, rat_zero, rat_one, rat_mul_checked, rat_div_checked, rat_sub_checked};
use crate::m::{mv_scale_checked, mv_div_checked, mv_sub_checked};
use crate::tableau_data::TableauData;

verus! {

/// Which simplex variant drives the iteration.
#[derive(Debug, Clone, Copy, PartialEq, Eq, Structural)]
pub enum SolveAlgorithm {
    Standard,
    Dual,
}

/// How the next variable is picked: greedy best value, or Bland's
/// lowest-index anti-cycling rule.
#[derive(Debug, Clone, Copy, PartialEq, Eq, Structural)]
pub enum VariableSelectType {
    Standard,
    Bland,
}

/// How artificial variables are penalised: directly with a symbolic big-M
/// cost, or through the two-phase method.
#[derive(Debug, Clone, Copy, PartialEq, Eq, Structural)]
pub enum BigMMode {
    Direct,
    TwoPhase,
}

/// The kinds of failure a tableau can record. Every failure is stored on the
/// tableau rather than raised, so a partly-built tableau can still be
/// inspected.
#[derive(Debug, Clone, Copy, PartialEq, Eq, Structural)]
pub enum ErrorKind {
    /// A zero denominator or divisor in exact arithmetic.
    DivisionByZero,
    /// An invalid mode selection, inconsistent dimensions, an empty
    /// coefficient matrix, or a missing entering/leaving index.
    ConfigError,
    /// The constraints admit no feasible point.
    Infeasible,
    /// The objective can be improved without bound.
    Unbounded,
    /// The iteration bound was exhausted without reaching a terminal state.
    CycleAborted,
    /// A reduced intermediate value does not fit the 64-bit representation.
    Overflow,
}

/// The dictionary of a linear program and all solver state.
pub struct Tableau {
    /// Constraint coefficients, `m` rows by `n` columns.
    pub A: Vec<Vec<Fraction>>,
    /// Right-hand side, length `m`.
    pub b: Vec<Fraction>,
    /// Objective coefficients, length `n`; artificial columns carry `-1·M`.
    pub c: Vec<M>,
    /// Row count.
    pub m: usize,
    /// Column count; grows when artificial columns are added.
    pub n: usize,
    /// Current objective value.
    pub obj: M,
    /// The basic column of each row; the columns at these indices form the
    /// identity, up to row order.
    pub basis_indecies: Vec<usize>,
    /// Reduced costs, length `n`, valid after each `calc_reduced_cost`.
    pub reduced_cost: Vec<M>,
    /// The phase-one cost vector of the two-phase method, length `n`.
    pub two_phase_c: Vec<M>,
    pub has_artificial_vars: bool,
    pub variable_select_type: VariableSelectType,
    pub solve_algorithm: SolveAlgorithm,
    pub big_M_solve_algorithm: BigMMode,
    pub solved: bool,
    pub error: bool,
    /// Which kind of failure `error` records, when it does.
    pub error_kind: Option<ErrorKind>,
    pub error_message: String,
    pub entering_var_index: Option<usize>,
    pub leaving_var_index: Option<usize>,
    /// The value of each variable, filled by `get_solution` once solved.
    pub solution: Vec<Fraction>,
}

/// The mathematical contents of a row of fractions.
pub open spec fn row_spec(row: Vec<Fraction>) -> Seq<Rat> {
    row@.map_values(|f: Fraction| f@)
}

/// The mathematical contents of a vector of big-M values.
pub open spec fn costs_spec(v: Vec<M>) -> Seq<MV> {
    v@.map_values(|x: M| x@)
}

impl Tableau {
    /// The constraint matrix as unbounded rationals.
    pub open spec fn a_spec(self) -> Seq<Seq<Rat>> {
        self.A@.map_values(|row: Vec<Fraction>| row_spec(row))
    }

    pub open spec fn b_spec(self) -> Seq<Rat> {
        row_spec(self.b)
    }

    pub open spec fn c_spec(self) -> Seq<MV> {
        costs_spec(self.c)
    }

    pub open spec fn rc_spec(self) -> Seq<MV> {
        costs_spec(self.reduced_cost)
    }

    pub open spec fn tpc_spec(self) -> Seq<MV> {
        costs_spec(self.two_phase_c)
    }

    pub open spec fn sol_spec(self) -> Seq<Rat> {
        row_spec(self.solution)
    }

    pub open spec fn basis_spec(self) -> Seq<int> {
        self.basis_indecies@.map_values(|x: usize| x as int)
    }

    /// Structural well-formedness: every stored vector has the dimensions
    /// the `m` and `n` fields claim, and the error flag agrees with the
    /// recorded error kind.
    pub open spec fn wf(self) -> bool {
        &&& self.A@.len() == self.m
        &&& (forall|i: int| 0 <= i < self.m ==> (#[trigger] self.A@[i])@.len() == self.n)
        &&& self.b@.len() == self.m
        &&& self.c@.len() == self.n
        &&& self.two_phase_c@.len() == self.n
        &&& self.basis_indecies@.len() == self.m
        &&& self.solution@.len() == self.n
        &&& self.error == (self.error_kind is Some)
    }

    /// Whether the reduced-cost vector has been computed for the current
    /// column count.
    pub open spec fn rc_ok(self) -> bool {
        self.reduced_cost@.len() == self.n
    }

    /// Whether every row's basic column index is a real column.
    pub open spec fn basis_ok(self) -> bool {
        forall|i: int| 0 <= i < self.m ==> 0 <= #[trigger] self.basis_spec()[i] < self.n
    }

    /// The cost vector the current phase charges: the auxiliary phase-one
    /// costs while artificial variables are being driven out under the
    /// two-phase method, the real costs otherwise.
    pub open spec fn active_cost(self) -> Seq<MV> {
        if self.has_artificial_vars && self.big_M_solve_algorithm is TwoPhase {
            self.tpc_spec()
        } else {
            self.c_spec()
        }
    }

    /// The solver data proper — matrix, costs, reduced costs, objective,
    /// basis and solution — is unchanged; selection indices and flags may
    /// differ.
    pub open spec fn same_data(self, other: Tableau) -> bool {
        &&& self.A == other.A
        &&& self.b == other.b
        &&& self.c == other.c
        &&& self.reduced_cost == other.reduced_cost
        &&& self.obj == other.obj
        &&& self.basis_indecies == other.basis_indecies
        &&& self.two_phase_c == other.two_phase_c
        &&& self.solution == other.solution
        &&& self.m == other.m
        &&& self.n == other.n
    }

    /// Everything but the terminal flags is unchanged.
    pub open spec fn same_tableau(self, other: Tableau) -> bool {
        &&& self.A == other.A
        &&& self.b == other.b
        &&& self.c == other.c
        &&& self.m == other.m
        &&& self.n == other.n
        &&& self.obj == other.obj
        &&& self.basis_indecies == other.basis_indecies
        &&& self.reduced_cost == other.reduced_cost
        &&& self.two_phase_c == other.two_phase_c
        &&& self.has_artificial_vars == other.has_artificial_vars
        &&& self.variable_select_type == other.variable_select_type
        &&& self.solve_algorithm == other.solve_algorithm
        &&& self.big_M_solve_algorithm == other.big_M_solve_algorithm
        &&& self.entering_var_index == other.entering_var_index
        &&& self.leaving_var_index == other.leaving_var_index
        &&& self.solution == other.solution
    }

    /// Records a failure on the tableau; all other state is kept.
    pub fn set_error(&mut self, kind: ErrorKind, msg: &str)
        ensures
            final(self).same_tableau(*old(self)),
            final(self).solved == old(self).solved,
            final(self).error,
            final(self).error_kind == Some(kind),
            final(self).error_message@ == msg@,
            old(self).wf() ==> final(self).wf(),
    {
        self.error = true;
        self.error_kind = Some(kind);
        self.error_message = String::from_str(msg);
    }

    /// A fresh tableau that carries only the failure of a broken one, in the
    /// exchange shape the service layer reports.
    pub fn error_tableau(t: Tableau) -> (r: Tableau)
        requires
            t.error == (t.error_kind is Some),
        ensures
            r.error == t.error,
            r.error_kind == t.error_kind,
            r.error_message@ == t.error_message@,
            r.m == 0,
            r.n == 0,
            !r.solved,
            r.A@.len() == 0,
            r.b@.len() == 0,
            r.c@.len() == 0,
            r.reduced_cost@.len() == 0,
            r.solution@.len() == 0,
            r.basis_indecies@.len() == 0,
            r.wf(),
    {
        Tableau {
            A: Vec::new(),
            b: Vec::new(),
            c: Vec::new(),
            m: 0,
            n: 0,
            obj: M::new(Fraction::zero(), Fraction::from_int(-1)),
            basis_indecies: Vec::new(),
            reduced_cost: Vec::new(),
            two_phase_c: Vec::new(),
            has_artificial_vars: false,
            variable_select_type: VariableSelectType::Standard,
            solve_algorithm: SolveAlgorithm::Standard,
            big_M_solve_algorithm: BigMMode::Direct,
            solved: false,
            error: t.error,
            error_kind: t.error_kind,
            error_message: t.error_message,
            entering_var_index: None,
            leaving_var_index: None,
            solution: Vec::new(),
        }
    }
}

/// One Gauss-Jordan elimination step on a rational entry:
/// `x - (u * v) / p`, with every intermediate checked against the 64-bit
/// representation.
pub open spec fn elim_rat(x: Rat, u: Rat, v: Rat, p: Rat) -> Option<Rat> {
    match rat_mul_checked(u, v) {
        None => None,
        Some(t1) => match rat_div_checked(t1, p) {
            None => None,
            Some(t2) => rat_sub_checked(x, t2),
        },
    }
}

/// One Gauss-Jordan elimination step on a big-M entry:
/// `x - (v * coeff) / p`, with every intermediate checked.
pub open spec fn elim_mv(x: MV, coeff: Rat, v: MV, p: Rat) -> Option<MV> {
    match mv_scale_checked(v, coeff) {
        None => None,
        Some(t1) => match mv_div_checked(t1, p) {
            None => None,
            Some(t2) => mv_sub_checked(x, t2),
        },
    }
}

} // verus!

verus! {

/// Whether a numerator/denominator pair denotes a representable canonical
/// fraction.
pub open spec fn pair_ok(n: i64, d: i64) -> bool {
    d != 0 && crate::rat::fits64(crate::rat::norm_frac(n as int, d as int))
}

/// Whether the exchange form's vectors have the dimensions its `m` and `n`
/// fields claim.
pub open spec fn dims_ok(td: TableauData) -> bool {
    &&& td.A_numerators@.len() == td.m
    &&& td.A_denominators@.len() == td.m
    &&& (forall|i: int|
        0 <= i < td.m ==> (#[trigger] td.A_numerators@[i])@.len() == td.n
            && td.A_denominators@[i]@.len() == td.n)
    &&& td.b_numerators@.len() == td.m
    &&& td.b_denominators@.len() == td.m
    &&& td.c_numerators@.len() == td.n
    &&& td.c_denominators@.len() == td.n
    &&& td.c_m_numerators@.len() == td.n
    &&& td.c_m_denominators@.len() == td.n
}

/// Whether every fraction of the exchange form is representable.
pub open spec fn entries_ok(td: TableauData) -> bool {
    &&& (forall|i: int, j: int|
        0 <= i < td.m && 0 <= j < td.n ==> pair_ok(
            #[trigger] td.A_numerators@[i]@[j],
            td.A_denominators@[i]@[j],
        ))
    &&& (forall|i: int|
        0 <= i < td.m ==> pair_ok(#[trigger] td.b_numerators@[i], td.b_denominators@[i]))
    &&& (forall|j: int|
        0 <= j < td.n ==> pair_ok(#[trigger] td.c_numerators@[j], td.c_denominators@[j]))
    &&& (forall|j: int|
        0 <= j < td.n ==> pair_ok(#[trigger] td.c_m_numerators@[j], td.c_m_denominators@[j]))
}

/// Whether the mode strings name known algorithm selections.
pub open spec fn modes_ok(td: TableauData) -> bool {
    &&& (td.solve_algorithm@ == "standard"@ || td.solve_algorithm@ == "dual"@)
    &&& (td.variable_select_type@ == "standard"@ || td.variable_select_type@ == "bland"@)
    &&& (td.big_M_solve_algorithm@ == "direct"@ || td.big_M_solve_algorithm@ == "two-phase"@)
}

/// Builds a vector of canonical fractions out of parallel
/// numerator/denominator vectors.
#[verifier::loop_isolation(false)]
fn build_fractions(nums: &Vec<i64>, dens: &Vec<i64>) -> (r: Result<Vec<Fraction>, FracError>)
    requires
        nums@.len() == dens@.len(),
    ensures
        r matches Ok(v) ==> v@.len() == nums@.len() && (forall|i: int|
            0 <= i < nums@.len() ==> pair_ok(#[trigger] nums@[i], dens@[i]) && v@[i]@
                == crate::rat::norm_frac(nums@[i] as int, dens@[i] as int)),
        r is Err ==> !(forall|i: int| 0 <= i < nums@.len() ==> pair_ok(#[trigger] nums@[i], dens@[i])),
{
    let mut v: Vec<Fraction> = Vec::new();
    let mut i: usize = 0;
    while i < nums.len()
        invariant
            i <= nums@.len(),
            v@.len() == i,
            forall|k: int|
                0 <= k < i ==> pair_ok(#[trigger] nums@[k], dens@[k]) && v@[k]@
                    == crate::rat::norm_frac(nums@[k] as int, dens@[k] as int),
        decreases nums@.len() - i,
    {
        let f = match Fraction::new(nums[i], dens[i]) {
            Ok(f) => f,
            Err(e) => {
                proof {
                    assert(!pair_ok(nums@[i as int], dens@[i as int]));
                }
                return Err(e);
            },
        };
        v.push(f);
        i += 1;
    }
    Ok(v)
}

impl Tableau {
    /// Builds a solver tableau from the exchange form: mode strings are
    /// parsed into closed selections, dimensions are validated, and every
    /// numerator/denominator pair becomes a canonical fraction. An unknown
    /// mode string or inconsistent dimensions are a configuration failure; a
    /// zero denominator or an unrepresentable fraction fails with the
    /// corresponding arithmetic error. A failed build is reported through an
    /// otherwise empty error tableau.
    #[verifier::loop_isolation(false)]
    #[verifier::rlimit(60)]
    pub fn new(t: TableauData) -> (r: Tableau)
        ensures
            r.wf(),
            !modes_ok(t) ==> (r.error && r.error_kind == Some(ErrorKind::ConfigError)),
            modes_ok(t) && !dims_ok(t) ==> (r.error && r.error_kind == Some(
                ErrorKind::ConfigError,
            )),
            modes_ok(t) && dims_ok(t) && !entries_ok(t) ==> (r.error && (r.error_kind == Some(
                ErrorKind::DivisionByZero,
            ) || r.error_kind == Some(ErrorKind::Overflow))),
            modes_ok(t) && dims_ok(t) && entries_ok(t) ==> {
                &&& !r.error
                &&& r.m == t.m
                &&& r.n == t.n
                &&& r.solve_algorithm == (if t.solve_algorithm@ == "standard"@ {
                    SolveAlgorithm::Standard
                } else {
                    SolveAlgorithm::Dual
                })
                &&& r.variable_select_type == (if t.variable_select_type@ == "standard"@ {
                    VariableSelectType::Standard
                } else {
                    VariableSelectType::Bland
                })
                &&& r.big_M_solve_algorithm == (if t.big_M_solve_algorithm@ == "two-phase"@ {
                    BigMMode::TwoPhase
                } else {
                    BigMMode::Direct
                })
                &&& (forall|i: int, j: int|
                    0 <= i < t.m && 0 <= j < t.n ==> #[trigger] r.a_spec()[i][j]
                        == crate::rat::norm_frac(
                        t.A_numerators@[i]@[j] as int,
                        t.A_denominators@[i]@[j] as int,
                    ))
                &&& (forall|i: int|
                    0 <= i < t.m ==> #[trigger] r.b_spec()[i] == crate::rat::norm_frac(
                        t.b_numerators@[i] as int,
                        t.b_denominators@[i] as int,
                    ))
                &&& (forall|j: int|
                    0 <= j < t.n ==> #[trigger] r.c_spec()[j] == (MV {
                        m: crate::rat::norm_frac(
                            t.c_m_numerators@[j] as int,
                            t.c_m_denominators@[j] as int,
                        ),
                        c: crate::rat::norm_frac(
                            t.c_numerators@[j] as int,
                            t.c_denominators@[j] as int,
                        ),
                    }))
                &&& (forall|i: int| 0 <= i < t.m ==> #[trigger] r.basis_spec()[i] == t.n)
                &&& r.reduced_cost@.len() == 0
                &&& (forall|j: int| 0 <= j < t.n ==> #[trigger] r.tpc_spec()[j] == mv_zero())
                &&& r.obj@ == (MV { m: crate::rat::rat_zero(), c: Rat { n: -1, d: 1 } })
                &&& (forall|j: int|
                    0 <= j < t.n ==> #[trigger] r.sol_spec()[j] == crate::rat::rat_zero())
                &&& !r.solved
                &&& !r.has_artificial_vars
                &&& r.entering_var_index is None
                &&& r.leaving_var_index is None
            },
    {
        let standard = String::from_str("standard");
        let dual = String::from_str("dual");
        let bland = String::from_str("bland");
        let two_phase = String::from_str("two-phase");
        let direct = String::from_str("direct");
        let solve_algorithm = if t.solve_algorithm == standard {
            SolveAlgorithm::Standard
        } else if t.solve_algorithm == dual {
            SolveAlgorithm::Dual
        } else {
            return Tableau::fail(ErrorKind::ConfigError, "Invalid type for solve algorithm selection");
        };
        let variable_select_type = if t.variable_select_type == standard {
            VariableSelectType::Standard
        } else if t.variable_select_type == bland {
            VariableSelectType::Bland
        } else {
            return Tableau::fail(
                ErrorKind::ConfigError,
                "Invalid type for variable selection method",
            );
        };
        let big_m_mode = if t.big_M_solve_algorithm == two_phase {
            BigMMode::TwoPhase
        } else if t.big_M_solve_algorithm == direct {
            BigMMode::Direct
        } else {
            return Tableau::fail(
                ErrorKind::ConfigError,
                "Invalid type for big-M strategy selection",
            );
        };
        if t.A_numerators.len() != t.m || t.A_denominators.len() != t.m || t.b_numerators.len()
            != t.m || t.b_denominators.len() != t.m || t.c_numerators.len() != t.n
            || t.c_denominators.len() != t.n || t.c_m_numerators.len() != t.n
            || t.c_m_denominators.len() != t.n {
            return Tableau::fail(
                ErrorKind::ConfigError,
                "The problem dimensions are inconsistent.",
            );
        }
        let mut i: usize = 0;
        while i < t.m
            invariant
                i <= t.m,
                t.A_numerators@.len() == t.m,
                t.A_denominators@.len() == t.m,
                forall|r: int| 0 <= r < i ==> (#[trigger] t.A_numerators@[r])@.len() == t.n,
                forall|r: int| 0 <= r < i ==> (#[trigger] t.A_denominators@[r])@.len() == t.n,
            decreases t.m - i,
        {
            let num_len = t.A_numerators[i].len();
            let den_len = t.A_denominators[i].len();
            if num_len != t.n || den_len != t.n {
                return Tableau::fail(
                    ErrorKind::ConfigError,
                    "The problem dimensions are inconsistent.",
                );
            }
            proof {
                assert(t.A_numerators@[i as int]@.len() == t.n);
                assert(t.A_denominators@[i as int]@.len() == t.n);
            }
            i += 1;
        }
        let mut a: Vec<Vec<Fraction>> = Vec::new();
        let mut i: usize = 0;
        while i < t.m
            invariant
                i <= t.m,
                dims_ok(t),
                a@.len() == i,
                forall|r: int| 0 <= r < i ==> (#[trigger] a@[r])@.len() == t.n,
                forall|r: int, j: int|
                    0 <= r < i && 0 <= j < t.n ==> pair_ok(
                        #[trigger] t.A_numerators@[r]@[j],
                        t.A_denominators@[r]@[j],
                    ) && a@[r]@[j]@ == crate::rat::norm_frac(
                        t.A_numerators@[r]@[j] as int,
                        t.A_denominators@[r]@[j] as int,
                    ),
            decreases t.m - i,
        {
            let row = match build_fractions(&t.A_numerators[i], &t.A_denominators[i]) {
                Ok(v) => v,
                Err(e) => {
                    return Tableau::fail_arith(e);
                },
            };
            a.push(row);
            i += 1;
        }
        let b = match build_fractions(&t.b_numerators, &t.b_denominators) {
            Ok(v) => v,
            Err(e) => {
                return Tableau::fail_arith(e);
            },
        };
        let c_const = match build_fractions(&t.c_numerators, &t.c_denominators) {
            Ok(v) => v,
            Err(e) => {
                return Tableau::fail_arith(e);
            },
        };
        let c_m = match build_fractions(&t.c_m_numerators, &t.c_m_denominators) {
            Ok(v) => v,
            Err(e) => {
                return Tableau::fail_arith(e);
            },
        };
        let mut c: Vec<M> = Vec::new();
        let mut j: usize = 0;
        while j < t.n
            invariant
                j <= t.n,
                c_m@.len() == t.n,
                c_const@.len() == t.n,
                c@.len() == j,
                forall|k: int|
                    0 <= k < j ==> (#[trigger] c@[k])@ == (MV { m: c_m@[k]@, c: c_const@[k]@ }),
            decreases t.n - j,
        {
            c.push(M::new(c_m[j], c_const[j]));
            j += 1;
        }
        let mut basis: Vec<usize> = Vec::new();
        let mut tpc: Vec<M> = Vec::new();
        let mut sol: Vec<Fraction> = Vec::new();
        let mut i: usize = 0;
        while i < t.m
            invariant
                i <= t.m,
                basis@.len() == i,
                forall|k: int| 0 <= k < i ==> (#[trigger] basis@[k]) == t.n,
            decreases t.m - i,
        {
            basis.push(t.n);
            i += 1;
        }
        let mut j: usize = 0;
        while j < t.n
            invariant
                j <= t.n,
                tpc@.len() == j,
                sol@.len() == j,
                forall|k: int| 0 <= k < j ==> (#[trigger] tpc@[k])@ == mv_zero(),
                forall|k: int| 0 <= k < j ==> (#[trigger] sol@[k])@ == crate::rat::rat_zero(),
            decreases t.n - j,
        {
            tpc.push(M::zero());
            sol.push(Fraction::zero());
            j += 1;
        }
        Tableau {
            A: a,
            b,
            c,
            m: t.m,
            n: t.n,
            obj: M::new(Fraction::zero(), Fraction::from_int(-1)),
            basis_indecies: basis,
            reduced_cost: Vec::new(),
            two_phase_c: tpc,
            has_artificial_vars: false,
            variable_select_type,
            solve_algorithm,
            big_M_solve_algorithm: big_m_mode,
            solved: false,
            error: false,
            error_kind: None,
            error_message: String::new(),
            entering_var_index: None,
            leaving_var_index: None,
            solution: sol,
        }
    }

    /// An empty tableau recording a configuration failure.
    fn fail(kind: ErrorKind, msg: &str) -> (r: Tableau)
        ensures
            r.wf(),
            r.error,
            r.error_kind == Some(kind),
            r.error_message@ == msg@,
    {
        let mut r = Tableau::empty();
        r.set_error(kind, msg);
        r
    }

    /// An empty tableau recording a failed fraction build.
    fn fail_arith(e: FracError) -> (r: Tableau)
        ensures
            r.wf(),
            r.error,
            e == FracError::DivisionByZero ==> r.error_kind == Some(ErrorKind::DivisionByZero),
            e == FracError::Overflow ==> r.error_kind == Some(ErrorKind::Overflow),
    {
        match e {
            FracError::DivisionByZero => Tableau::fail(
                ErrorKind::DivisionByZero,
                "A fraction was given a zero denominator.",
            ),
            FracError::Overflow => Tableau::fail(
                ErrorKind::Overflow,
                "A fraction does not fit the 64-bit representation.",
            ),
        }
    }

    /// A tableau of no rows and no columns.
    fn empty() -> (r: Tableau)
        ensures
            r.wf(),
            !r.error,
            r.error_kind is None,
            !r.solved,
            r.m == 0,
            r.n == 0,
    {
        Tableau {
            A: Vec::new(),
            b: Vec::new(),
            c: Vec::new(),
            m: 0,
            n: 0,
            obj: M::new(Fraction::zero(), Fraction::from_int(-1)),
            basis_indecies: Vec::new(),
            reduced_cost: Vec::new(),
            two_phase_c: Vec::new(),
            has_artificial_vars: false,
            variable_select_type: VariableSelectType::Standard,
            solve_algorithm: SolveAlgorithm::Standard,
            big_M_solve_algorithm: BigMMode::Direct,
            solved: false,
            error: false,
            error_kind: None,
            error_message: String::new(),
            entering_var_index: None,
            leaving_var_index: None,
            solution: Vec::new(),
        }
    }
}

} // verus!
