//! The symbolic big-M cost value.

use std::cmp::Ordering;
use lp_simplex::{Fraction, FracError};
use lp_simplex::m::M;

fn f(n: i64, d: i64) -> Fraction {
    Fraction::new(n, d).unwrap()
}

fn mv(m_num: i64, m_den: i64, c_num: i64, c_den: i64) -> M {
    M::new(f(m_num, m_den), f(c_num, c_den))
}

#[test]
fn componentwise_arithmetic() {
    let a = mv(1, 2, 3, 1);
    let b = mv(1, 2, -1, 1);
    let s = a.add(b).unwrap();
    assert_eq!(s.m_coeff, f(1, 1));
    assert_eq!(s.constant, f(2, 1));
    let d = a.sub(b).unwrap();
    assert_eq!(d.m_coeff, f(0, 1));
    assert_eq!(d.constant, f(4, 1));
}

#[test]
fn scaling_and_division() {
    let a = mv(1, 1, -2, 1);
    let s = a.scale(f(3, 2)).unwrap();
    assert_eq!(s.m_coeff, f(3, 2));
    assert_eq!(s.constant, f(-3, 1));
    let q = s.divide(f(3, 2)).unwrap();
    assert_eq!(q.m_coeff, f(1, 1));
    assert_eq!(q.constant, f(-2, 1));
    assert_eq!(a.divide(f(0, 1)), Err(FracError::DivisionByZero));
}

#[test]
fn lexicographic_compare() {
    // the M coefficient decides, whatever the constants
    assert_eq!(mv(1, 1, -1000, 1).compare(&mv(2, 1, 1000, 1)), Ordering::Less);
    assert_eq!(mv(-1, 1, 1000, 1).compare(&mv(0, 1, -1000, 1)), Ordering::Less);
    // equal M coefficients fall back to the constants
    assert_eq!(mv(1, 2, 1, 1).compare(&mv(1, 2, 2, 1)), Ordering::Less);
    assert_eq!(mv(1, 2, 2, 1).compare(&mv(1, 2, 2, 1)), Ordering::Equal);
    assert_eq!(mv(1, 2, 3, 1).compare(&mv(1, 2, 2, 1)), Ordering::Greater);
}

#[test]
fn zero_test() {
    assert!(M::zero().is_zero());
    assert!(!mv(0, 1, 1, 1).is_zero());
    assert!(!mv(1, 1, 0, 1).is_zero());
    assert!(mv(1, 1, 0, 1).is_negative() == false);
    assert!(mv(-1, 1, 1000, 1).is_negative());
    assert!(mv(0, 1, -1, 5).is_negative());
}

#[test]
fn formatting() {
    // a plain value prints as its constant
    assert_eq!(mv(0, 1, 3, 2).format(), "3/2");
    // unit coefficients elide
    assert_eq!(mv(1, 1, 0, 1).format(), "M");
    assert_eq!(mv(-1, 1, 0, 1).format(), "-M");
    // positive constants take an explicit plus sign
    assert_eq!(mv(1, 1, 3, 2).format(), "M+3/2");
    assert_eq!(mv(-1, 1, -3, 2).format(), "-M-3/2");
    // a general coefficient prints in full
    assert_eq!(mv(5, 2, -1, 3).format(), "5/2M-1/3");
}
