//! End-to-end solver scenarios.

use lp_simplex::Fraction;
use lp_simplex::tableau::{ErrorKind, Tableau};
use lp_simplex::tableau_data::TableauData;

fn f(n: i64, d: i64) -> Fraction {
    Fraction::new(n, d).unwrap()
}

/// Builds the exchange form of a problem with whole-number data: matrix
/// `a`, right-hand side `b`, cost constants `c`, and the three mode
/// selectors.
fn problem(
    a: Vec<Vec<i64>>,
    b: Vec<i64>,
    c: Vec<i64>,
    solve: &str,
    select: &str,
    big_m: &str,
) -> TableauData {
    let m = a.len();
    let n = c.len();
    TableauData {
        A_numerators: a,
        A_denominators: vec![vec![1; n]; m],
        b_numerators: b,
        b_denominators: vec![1; m],
        c_numerators: c,
        c_denominators: vec![1; n],
        c_m_numerators: vec![0; n],
        c_m_denominators: vec![1; n],
        m,
        n,
        solve_algorithm: String::from(solve),
        variable_select_type: String::from(select),
        big_M_solve_algorithm: String::from(big_m),
        error: false,
        error_message: String::new(),
        reduced_cost_numerators: vec![],
        reduced_cost_denominators: vec![],
        reduced_cost_m_numerators: vec![],
        reduced_cost_m_denominators: vec![],
        basis_indecies: vec![],
        obj_numerator: 0,
        obj_denominator: 1,
        obj_m_numerator: 0,
        obj_m_denominator: 1,
        solved: false,
        solution_numerators: vec![],
        solution_denominators: vec![],
    }
}

/// A trivially feasible problem whose slack-like column gives a basis
/// directly: no artificial variables, immediate optimality, and a solution
/// on the constraint line.
#[test]
fn trivial_feasible_lp() {
    let td = problem(
        vec![vec![1, 1]],
        vec![4],
        vec![-1, -1],
        "standard",
        "standard",
        "direct",
    );
    let mut t = Tableau::new(td);
    assert!(!t.error);
    t.setup();
    assert!(!t.error);
    assert!(!t.has_artificial_vars);
    t.solve();
    assert!(t.solved);
    assert!(!t.error);
    // objective lands exactly at -4 with no M part
    assert_eq!(t.obj.constant, f(-4, 1));
    assert!(t.obj.m_coeff.is_zero());
    // the solution satisfies x1 + x2 = 4
    t.get_solution();
    let sum = t.solution[0].add(t.solution[1]).unwrap();
    assert_eq!(sum, f(4, 1));
}

/// A constraint row with no embedded unit column forces an artificial
/// variable with symbolic cost `-M`; the direct big-M solve drives it out
/// and the optimum carries no residual M part.
#[test]
fn artificial_variable_big_m() {
    let td = problem(
        vec![vec![2, 3]],
        vec![6],
        vec![-1, -1],
        "standard",
        "standard",
        "direct",
    );
    let mut t = Tableau::new(td);
    t.setup();
    assert!(!t.error);
    assert!(t.has_artificial_vars);
    assert_eq!(t.n, 3);
    t.solve();
    assert!(t.solved);
    assert!(!t.error);
    // feasible: the M coefficient of the objective is exactly zero
    assert!(t.obj.m_coeff.is_zero());
    assert_eq!(t.obj.constant, f(-2, 1));
    t.get_solution();
    // 2 x1 + 3 x2 == 6
    let lhs = t.solution[0]
        .mul(f(2, 1))
        .unwrap()
        .add(t.solution[1].mul(f(3, 1)).unwrap())
        .unwrap();
    assert_eq!(lhs, f(6, 1));
}

/// Contradictory constraints under the two-phase method: phase one ends at
/// a strictly negative plain objective, and the phase transition reports
/// the problem infeasible.
#[test]
fn infeasible_two_phase() {
    let td = problem(
        vec![vec![1], vec![1]],
        vec![1, 2],
        vec![0],
        "standard",
        "standard",
        "two-phase",
    );
    let mut t = Tableau::new(td);
    t.setup();
    assert!(!t.error);
    assert!(t.has_artificial_vars);
    t.solve();
    assert!(t.solved);
    // phase-one objective: zero M part, strictly negative constant
    assert!(t.obj.m_coeff.is_zero());
    assert!(t.obj.constant < f(0, 1));
    t.two_phase_second_phase();
    assert!(t.error);
    assert_eq!(t.error_kind, Some(ErrorKind::Infeasible));
}

/// A non-positive entering column means no ratio bounds the step: the
/// problem is unbounded.
#[test]
fn unbounded_problem() {
    let td = problem(
        vec![vec![-1, 1]],
        vec![4],
        vec![1, 0],
        "standard",
        "standard",
        "direct",
    );
    let mut t = Tableau::new(td);
    t.setup();
    assert!(!t.error);
    t.solve();
    assert!(!t.solved);
    assert!(t.error);
    assert_eq!(t.error_kind, Some(ErrorKind::Unbounded));
}

/// The classic cycling configuration: under greedy selection with
/// first-index tie-breaks the iteration revisits its starting dictionary
/// and the `n + 1` iteration cap fires as the anti-cycling safety net.
#[test]
fn cycling_safety_net() {
    let td = TableauData {
        A_numerators: vec![
            vec![1, -60, -1, 9, 1, 0, 0],
            vec![1, -90, -1, 3, 0, 1, 0],
            vec![0, 0, 1, 0, 0, 0, 1],
        ],
        A_denominators: vec![
            vec![4, 1, 25, 1, 1, 1, 1],
            vec![2, 1, 50, 1, 1, 1, 1],
            vec![1, 1, 1, 1, 1, 1, 1],
        ],
        b_numerators: vec![0, 0, 1],
        b_denominators: vec![1, 1, 1],
        c_numerators: vec![3, -150, 1, -6, 0, 0, 0],
        c_denominators: vec![4, 1, 50, 1, 1, 1, 1],
        c_m_numerators: vec![0; 7],
        c_m_denominators: vec![1; 7],
        m: 3,
        n: 7,
        solve_algorithm: String::from("standard"),
        variable_select_type: String::from("standard"),
        big_M_solve_algorithm: String::from("direct"),
        error: false,
        error_message: String::new(),
        reduced_cost_numerators: vec![],
        reduced_cost_denominators: vec![],
        reduced_cost_m_numerators: vec![],
        reduced_cost_m_denominators: vec![],
        basis_indecies: vec![],
        obj_numerator: 0,
        obj_denominator: 1,
        obj_m_numerator: 0,
        obj_m_denominator: 1,
        solved: false,
        solution_numerators: vec![],
        solution_denominators: vec![],
    };
    let mut t = Tableau::new(td);
    t.setup();
    assert!(!t.error);
    assert!(!t.has_artificial_vars);
    t.solve();
    assert!(!t.solved);
    assert!(t.error);
    assert_eq!(t.error_kind, Some(ErrorKind::CycleAborted));
}

/// The same degenerate problem solves under Bland's anti-cycling rule.
#[test]
fn bland_rule_escapes_cycle() {
    let td = TableauData {
        A_numerators: vec![
            vec![1, -60, -1, 9, 1, 0, 0],
            vec![1, -90, -1, 3, 0, 1, 0],
            vec![0, 0, 1, 0, 0, 0, 1],
        ],
        A_denominators: vec![
            vec![4, 1, 25, 1, 1, 1, 1],
            vec![2, 1, 50, 1, 1, 1, 1],
            vec![1, 1, 1, 1, 1, 1, 1],
        ],
        b_numerators: vec![0, 0, 1],
        b_denominators: vec![1, 1, 1],
        c_numerators: vec![3, -150, 1, -6, 0, 0, 0],
        c_denominators: vec![4, 1, 50, 1, 1, 1, 1],
        c_m_numerators: vec![0; 7],
        c_m_denominators: vec![1; 7],
        m: 3,
        n: 7,
        solve_algorithm: String::from("standard"),
        variable_select_type: String::from("bland"),
        big_M_solve_algorithm: String::from("direct"),
        error: false,
        error_message: String::new(),
        reduced_cost_numerators: vec![],
        reduced_cost_denominators: vec![],
        reduced_cost_m_numerators: vec![],
        reduced_cost_m_denominators: vec![],
        basis_indecies: vec![],
        obj_numerator: 0,
        obj_denominator: 1,
        obj_m_numerator: 0,
        obj_m_denominator: 1,
        solved: false,
        solution_numerators: vec![],
        solution_denominators: vec![],
    };
    let mut t = Tableau::new(td);
    t.setup();
    assert!(!t.error);
    t.solve();
    assert!(t.solved);
    assert!(!t.error);
}

/// Pivoting with no selected indices is a configuration failure, not a
/// crash.
#[test]
fn pivot_without_selection() {
    let td = problem(
        vec![vec![1, 1]],
        vec![4],
        vec![-1, -1],
        "standard",
        "standard",
        "direct",
    );
    let mut t = Tableau::new(td);
    t.setup();
    t.pivot();
    assert!(t.error);
    assert_eq!(t.error_kind, Some(ErrorKind::ConfigError));
}

/// Unknown mode strings are rejected at construction.
#[test]
fn invalid_mode_strings() {
    let td = problem(vec![vec![1]], vec![1], vec![1], "simplex", "standard", "direct");
    let t = Tableau::new(td);
    assert!(t.error);
    assert_eq!(t.error_kind, Some(ErrorKind::ConfigError));
    let td = problem(vec![vec![1]], vec![1], vec![1], "standard", "best", "direct");
    let t = Tableau::new(td);
    assert!(t.error);
    assert_eq!(t.error_kind, Some(ErrorKind::ConfigError));
    let td = problem(vec![vec![1]], vec![1], vec![1], "standard", "standard", "big");
    let t = Tableau::new(td);
    assert!(t.error);
    assert_eq!(t.error_kind, Some(ErrorKind::ConfigError));
}

/// A zero denominator in the problem data is a division-by-zero failure.
#[test]
fn zero_denominator_input() {
    let mut td = problem(vec![vec![1, 1]], vec![4], vec![-1, -1], "standard", "standard", "direct");
    td.b_denominators = vec![0];
    let t = Tableau::new(td);
    assert!(t.error);
    assert_eq!(t.error_kind, Some(ErrorKind::DivisionByZero));
}

/// A negative right-hand side is rejected by the primal setup.
#[test]
fn negative_b_rejected() {
    let td = problem(
        vec![vec![1, 1]],
        vec![-4],
        vec![-1, -1],
        "standard",
        "standard",
        "direct",
    );
    let mut t = Tableau::new(td);
    t.setup();
    assert!(t.error);
    assert_eq!(t.error_kind, Some(ErrorKind::ConfigError));
}

/// The flattening round trip preserves every reported field.
#[test]
fn exchange_form_round_trip() {
    let td = problem(
        vec![vec![1, 1]],
        vec![4],
        vec![-1, -1],
        "standard",
        "standard",
        "direct",
    );
    let mut t = Tableau::new(td);
    t.setup();
    t.solve();
    t.get_solution();
    let out = TableauData::new(t);
    assert_eq!(out.m, 1);
    assert_eq!(out.n, 2);
    assert!(out.solved);
    assert!(!out.error);
    assert_eq!(out.obj_numerator, -4);
    assert_eq!(out.obj_denominator, 1);
    assert_eq!(out.obj_m_numerator, 0);
    assert_eq!(
        out.solution_numerators[0] * out.solution_denominators[1]
            + out.solution_numerators[1] * out.solution_denominators[0],
        4 * out.solution_denominators[0] * out.solution_denominators[1]
    );
}

/// A failed tableau collapses to an error report in exchange form.
#[test]
fn error_tableau_report() {
    let td = problem(vec![vec![1]], vec![1], vec![1], "nonsense", "standard", "direct");
    let t = Tableau::new(td);
    assert!(t.error);
    let e = Tableau::error_tableau(t);
    assert!(e.error);
    assert_eq!(e.m, 0);
    assert_eq!(e.n, 0);
    let out = TableauData::new(e);
    assert!(out.error);
    assert_eq!(out.m, 0);
}

/// The dual simplex restores feasibility of an optimal dictionary: unit
/// slack columns form the basis, negative right-hand sides leave one at a
/// time, and the finish certifies a non-negative right-hand side.
#[test]
fn dual_simplex_restores_feasibility() {
    let td = problem(
        vec![vec![-1, 0, 1, 0], vec![0, -1, 0, 1]],
        vec![-1, -2],
        vec![-1, -1, 0, 0],
        "dual",
        "standard",
        "direct",
    );
    let mut t = Tableau::new(td);
    assert!(!t.error);
    t.setup();
    assert!(!t.error);
    t.solve();
    assert!(t.solved);
    assert!(!t.error);
    // every right-hand side is non-negative at the end
    for bi in &t.b {
        assert!(!bi.is_negative());
    }
    t.get_solution();
    assert_eq!(t.solution[0], f(1, 1));
    assert_eq!(t.solution[1], f(2, 1));
}

/// One setup and one iteration, checked entry by entry against the pivot
/// formulas: reduced costs, matrix, right-hand side and objective all take
/// their exact rational values.
#[test]
fn pivot_formulas_exact() {
    let td = problem(
        vec![vec![2, 3]],
        vec![6],
        vec![-1, -1],
        "standard",
        "standard",
        "direct",
    );
    let mut t = Tableau::new(td);
    t.setup();
    assert!(!t.error);
    // the artificial column makes the basis; costs are charged in big M
    assert_eq!(t.basis_indecies, vec![2]);
    assert_eq!(t.reduced_cost[0].m_coeff, f(-2, 1));
    assert_eq!(t.reduced_cost[0].constant, f(1, 1));
    assert_eq!(t.reduced_cost[1].m_coeff, f(-3, 1));
    assert_eq!(t.reduced_cost[1].constant, f(1, 1));
    assert!(t.reduced_cost[2].is_zero());
    assert_eq!(t.obj.m_coeff, f(-6, 1));
    assert!(t.obj.constant.is_zero());
    // one step: column 1 enters (most negative), row 0 leaves, pivot on 3
    t.iterate();
    assert!(!t.error);
    assert!(!t.solved);
    assert_eq!(t.basis_indecies, vec![1]);
    assert_eq!(t.A[0][0], f(2, 3));
    assert_eq!(t.A[0][1], f(1, 1));
    assert_eq!(t.A[0][2], f(1, 3));
    assert_eq!(t.b[0], f(2, 1));
    assert!(t.reduced_cost[0].m_coeff.is_zero());
    assert_eq!(t.reduced_cost[0].constant, f(1, 3));
    assert!(t.reduced_cost[1].is_zero());
    assert_eq!(t.reduced_cost[2].m_coeff, f(1, 1));
    assert_eq!(t.reduced_cost[2].constant, f(-1, 3));
    assert!(t.obj.m_coeff.is_zero());
    assert_eq!(t.obj.constant, f(-2, 1));
}

/// A feasible two-phase run: phase one reaches exactly zero, the
/// transition recomputes the real reduced costs, and phase two finds the
/// same optimum the direct big-M method would.
#[test]
fn feasible_two_phase() {
    let td = problem(
        vec![vec![2, 3]],
        vec![6],
        vec![-1, -1],
        "standard",
        "standard",
        "two-phase",
    );
    let mut t = Tableau::new(td);
    t.setup();
    assert!(!t.error);
    assert!(t.has_artificial_vars);
    t.solve();
    assert!(t.solved);
    // phase one closes at exactly zero
    assert!(t.obj.is_zero());
    t.two_phase_second_phase();
    assert!(t.solved);
    assert!(!t.error);
    assert!(!t.has_artificial_vars);
    assert!(t.obj.m_coeff.is_zero());
    assert_eq!(t.obj.constant, f(-2, 1));
}

/// A degenerate artificial variable still basic after phase one is pivoted
/// out to a real column during the phase transition.
#[test]
fn two_phase_pivots_artificial_out() {
    let td = problem(
        vec![vec![1, 1], vec![2, 2]],
        vec![2, 4],
        vec![-1, -1],
        "standard",
        "standard",
        "two-phase",
    );
    let mut t = Tableau::new(td);
    t.setup();
    assert!(!t.error);
    assert_eq!(t.n, 4);
    t.solve();
    assert!(t.solved);
    assert!(t.obj.is_zero());
    t.two_phase_second_phase();
    assert!(t.solved);
    assert!(!t.error);
    // no artificial column is basic any more
    assert!(t.basis_indecies.iter().all(|&b| b < 2 || t.c[b].m_coeff.is_zero()));
}

/// A vacuous constraint row whose only non-zero entry is its own artificial
/// column is deleted, together with that column, at the phase transition.
#[test]
fn two_phase_removes_redundant_row() {
    let td = problem(
        vec![vec![1, 1], vec![0, 0]],
        vec![2, 0],
        vec![-1, -1],
        "standard",
        "standard",
        "two-phase",
    );
    let mut t = Tableau::new(td);
    t.setup();
    assert!(!t.error);
    assert_eq!(t.m, 2);
    assert_eq!(t.n, 3);
    t.solve();
    assert!(t.solved);
    assert!(t.obj.is_zero());
    t.two_phase_second_phase();
    assert!(t.solved);
    assert!(!t.error);
    // the vacuous row and its artificial column are gone
    assert_eq!(t.m, 1);
    assert_eq!(t.n, 2);
    assert_eq!(t.obj.constant, f(-2, 1));
    t.get_solution();
    assert_eq!(t.solution[0], f(2, 1));
}


/// An all-zero constraint row with a non-zero right-hand side makes the
/// dual setup report infeasibility before any forced pivot.
#[test]
fn dual_infeasible_empty_row() {
    let td = problem(
        vec![vec![0], vec![1]],
        vec![1, 5],
        vec![-1],
        "dual",
        "standard",
        "direct",
    );
    let mut t = Tableau::new(td);
    assert!(!t.error);
    t.setup();
    assert!(t.error);
    assert_eq!(t.error_kind, Some(ErrorKind::Infeasible));
}

/// An all-zero constraint row with a zero right-hand side is vacuous: the
/// dual setup drops it and the solve completes on the remaining rows.
#[test]
fn dual_drops_vacuous_row() {
    let td = problem(
        vec![vec![0], vec![1]],
        vec![0, 5],
        vec![-1],
        "dual",
        "standard",
        "direct",
    );
    let mut t = Tableau::new(td);
    t.setup();
    assert!(!t.error);
    assert_eq!(t.m, 1);
    t.solve();
    assert!(t.solved);
    assert!(!t.error);
    t.get_solution();
    assert_eq!(t.solution[0], f(5, 1));
}
