//! The plain-integer exchange form of a tableau: every rational appears as a
//! separate numerator/denominator pair, ready for a transport layer to
//! serialise without touching exact arithmetic.

use vstd::prelude::*;
use crate::tableau::Tableau;

verus! {

/// A tableau flattened to machine integers and strings. Incoming problems
/// fill the matrix, cost and mode fields; outgoing answers also carry the
/// solver's result fields.
#[allow(non_snake_case)]
pub struct TableauData {
    pub A_numerators: Vec<Vec<i64>>,
    pub A_denominators: Vec<Vec<i64>>,
    pub b_numerators: Vec<i64>,
    pub b_denominators: Vec<i64>,
    pub c_numerators: Vec<i64>,
    pub c_denominators: Vec<i64>,
    pub c_m_numerators: Vec<i64>,
    pub c_m_denominators: Vec<i64>,
    pub m: usize,
    pub n: usize,
    pub solve_algorithm: String,
    pub variable_select_type: String,
    pub big_M_solve_algorithm: String,
    pub error: bool,
    pub error_message: String,
    pub reduced_cost_numerators: Vec<i64>,
    pub reduced_cost_denominators: Vec<i64>,
    pub reduced_cost_m_numerators: Vec<i64>,
    pub reduced_cost_m_denominators: Vec<i64>,
    pub basis_indecies: Vec<usize>,
    pub obj_numerator: i64,
    pub obj_denominator: i64,
    pub obj_m_numerator: i64,
    pub obj_m_denominator: i64,
    pub solved: bool,
    pub solution_numerators: Vec<i64>,
    pub solution_denominators: Vec<i64>,
}

impl TableauData {
    /// Flattens a solved or failed tableau into exchange form: every stored
    /// fraction becomes its numerator/denominator pair, in field order.
    pub fn new(t: Tableau) -> (r: TableauData)
        ensures
            r.A_numerators@.len() == t.A@.len(),
            r.A_denominators@.len() == t.A@.len(),
            forall|i: int|
                0 <= i < t.A@.len() ==> (#[trigger] r.A_numerators@[i])@.len() == t.A@[i]@.len()
                    && r.A_denominators@[i]@.len() == t.A@[i]@.len(),
            forall|i: int, j: int|
                0 <= i < t.A@.len() && 0 <= j < t.A@[i]@.len() ==> (
                #[trigger] r.A_numerators@[i]@[j]) == t.A@[i]@[j]@.n && r.A_denominators@[i]@[j]
                    == t.A@[i]@[j]@.d,
            r.b_numerators@.len() == t.b@.len(),
            r.b_denominators@.len() == t.b@.len(),
            forall|i: int|
                0 <= i < t.b@.len() ==> (#[trigger] r.b_numerators@[i]) == t.b@[i]@.n
                    && r.b_denominators@[i] == t.b@[i]@.d,
            r.c_numerators@.len() == t.c@.len(),
            r.c_denominators@.len() == t.c@.len(),
            r.c_m_numerators@.len() == t.c@.len(),
            r.c_m_denominators@.len() == t.c@.len(),
            forall|i: int|
                0 <= i < t.c@.len() ==> (#[trigger] r.c_numerators@[i]) == t.c@[i]@.c.n
                    && r.c_denominators@[i] == t.c@[i]@.c.d && r.c_m_numerators@[i] == t.c@[i]@.m.n
                    && r.c_m_denominators@[i] == t.c@[i]@.m.d,
            r.reduced_cost_numerators@.len() == t.reduced_cost@.len(),
            r.reduced_cost_denominators@.len() == t.reduced_cost@.len(),
            r.reduced_cost_m_numerators@.len() == t.reduced_cost@.len(),
            r.reduced_cost_m_denominators@.len() == t.reduced_cost@.len(),
            forall|i: int|
                0 <= i < t.reduced_cost@.len() ==> (#[trigger] r.reduced_cost_numerators@[i])
                    == t.reduced_cost@[i]@.c.n && r.reduced_cost_denominators@[i]
                    == t.reduced_cost@[i]@.c.d && r.reduced_cost_m_numerators@[i]
                    == t.reduced_cost@[i]@.m.n && r.reduced_cost_m_denominators@[i]
                    == t.reduced_cost@[i]@.m.d,
            r.solution_numerators@.len() == t.solution@.len(),
            r.solution_denominators@.len() == t.solution@.len(),
            forall|i: int|
                0 <= i < t.solution@.len() ==> (#[trigger] r.solution_numerators@[i])
                    == t.solution@[i]@.n && r.solution_denominators@[i] == t.solution@[i]@.d,
            r.m == t.m,
            r.n == t.n,
            r.error == t.error,
            r.error_message@ == t.error_message@,
            r.solved == t.solved,
            r.basis_indecies@ == t.basis_indecies@,
            r.obj_numerator == t.obj@.c.n,
            r.obj_denominator == t.obj@.c.d,
            r.obj_m_numerator == t.obj@.m.n,
            r.obj_m_denominator == t.obj@.m.d,
            r.solve_algorithm@ == Seq::<char>::empty(),
            r.variable_select_type@ == Seq::<char>::empty(),
            r.big_M_solve_algorithm@ == Seq::<char>::empty(),
    {
        let mut a_num: Vec<Vec<i64>> = Vec::new();
        let mut a_den: Vec<Vec<i64>> = Vec::new();
        let mut i: usize = 0;
        while i < t.A.len()
            invariant
                i <= t.A@.len(),
                a_num@.len() == i,
                a_den@.len() == i,
                forall|r: int|
                    0 <= r < i ==> (#[trigger] a_num@[r])@.len() == t.A@[r]@.len()
                        && a_den@[r]@.len() == t.A@[r]@.len(),
                forall|r: int, j: int|
                    0 <= r < i && 0 <= j < t.A@[r]@.len() ==> (#[trigger] a_num@[r]@[j])
                        == t.A@[r]@[j]@.n && a_den@[r]@[j] == t.A@[r]@[j]@.d,
            decreases t.A@.len() - i,
        {
            let row = &t.A[i];
            let mut num_row: Vec<i64> = Vec::new();
            let mut den_row: Vec<i64> = Vec::new();
            let mut j: usize = 0;
            while j < row.len()
                invariant
                    j <= row@.len(),
                    num_row@.len() == j,
                    den_row@.len() == j,
                    forall|k: int|
                        0 <= k < j ==> (#[trigger] num_row@[k]) == row@[k]@.n && den_row@[k]
                            == row@[k]@.d,
                decreases row@.len() - j,
            {
                num_row.push(row[j].numerator());
                den_row.push(row[j].denominator());
                j += 1;
            }
            a_num.push(num_row);
            a_den.push(den_row);
            i += 1;
        }
        let (b_num, b_den) = split_fractions(&t.b);
        let (c_num, c_den, c_m_num, c_m_den) = split_costs(&t.c);
        let (rc_num, rc_den, rc_m_num, rc_m_den) = split_costs(&t.reduced_cost);
        let (sol_num, sol_den) = split_fractions(&t.solution);
        TableauData {
            A_numerators: a_num,
            A_denominators: a_den,
            b_numerators: b_num,
            b_denominators: b_den,
            c_numerators: c_num,
            c_denominators: c_den,
            c_m_numerators: c_m_num,
            c_m_denominators: c_m_den,
            m: t.m,
            n: t.n,
            solve_algorithm: String::new(),
            variable_select_type: String::new(),
            big_M_solve_algorithm: String::new(),
            error: t.error,
            error_message: t.error_message,
            reduced_cost_numerators: rc_num,
            reduced_cost_denominators: rc_den,
            reduced_cost_m_numerators: rc_m_num,
            reduced_cost_m_denominators: rc_m_den,
            basis_indecies: t.basis_indecies,
            obj_numerator: t.obj.constant.numerator(),
            obj_denominator: t.obj.constant.denominator(),
            obj_m_numerator: t.obj.m_coeff.numerator(),
            obj_m_denominator: t.obj.m_coeff.denominator(),
            solved: t.solved,
            solution_numerators: sol_num,
            solution_denominators: sol_den,
        }
    }
}

/// Splits a vector of fractions into parallel numerator and denominator
/// vectors.
fn split_fractions(v: &Vec<crate::Fraction>) -> (r: (Vec<i64>, Vec<i64>))
    ensures
        r.0@.len() == v@.len(),
        r.1@.len() == v@.len(),
        forall|i: int|
            0 <= i < v@.len() ==> (#[trigger] r.0@[i]) == v@[i]@.n && r.1@[i] == v@[i]@.d,
{
    let mut num: Vec<i64> = Vec::new();
    let mut den: Vec<i64> = Vec::new();
    let mut i: usize = 0;
    while i < v.len()
        invariant
            i <= v@.len(),
            num@.len() == i,
            den@.len() == i,
            forall|k: int| 0 <= k < i ==> (#[trigger] num@[k]) == v@[k]@.n && den@[k] == v@[k]@.d,
        decreases v@.len() - i,
    {
        num.push(v[i].numerator());
        den.push(v[i].denominator());
        i += 1;
    }
    (num, den)
}

/// Splits a vector of big-M costs into parallel constant and `M`-part
/// numerator/denominator vectors.
fn split_costs(v: &Vec<crate::m::M>) -> (r: (Vec<i64>, Vec<i64>, Vec<i64>, Vec<i64>))
    ensures
        r.0@.len() == v@.len(),
        r.1@.len() == v@.len(),
        r.2@.len() == v@.len(),
        r.3@.len() == v@.len(),
        forall|i: int|
            0 <= i < v@.len() ==> (#[trigger] r.0@[i]) == v@[i]@.c.n && r.1@[i] == v@[i]@.c.d
                && r.2@[i] == v@[i]@.m.n && r.3@[i] == v@[i]@.m.d,
{
    let mut num: Vec<i64> = Vec::new();
    let mut den: Vec<i64> = Vec::new();
    let mut m_num: Vec<i64> = Vec::new();
    let mut m_den: Vec<i64> = Vec::new();
    let mut i: usize = 0;
    while i < v.len()
        invariant
            i <= v@.len(),
            num@.len() == i,
            den@.len() == i,
            m_num@.len() == i,
            m_den@.len() == i,
            forall|k: int|
                0 <= k < i ==> (#[trigger] num@[k]) == v@[k]@.c.n && den@[k] == v@[k]@.c.d
                    && m_num@[k] == v@[k]@.m.n && m_den@[k] == v@[k]@.m.d,
        decreases v@.len() - i,
    {
        num.push(v[i].constant.numerator());
        den.push(v[i].constant.denominator());
        m_num.push(v[i].m_coeff.numerator());
        m_den.push(v[i].m_coeff.denominator());
        i += 1;
    }
    (num, den, m_num, m_den)
}

} // verus!
