//! Exact-fraction arithmetic.

use lp_simplex::{gcd, Fraction, FracError};

/// Builds the fraction closest to a decimal literal, scaling by powers of
/// ten until the fractional part vanishes.
fn frac(f: f64) -> Fraction {
    let mut n = f;
    let mut d: i64 = 1;
    for _ in 0..18 {
        if n.fract().abs() < 1e-6 {
            break;
        }
        n *= 10f64;
        d *= 10;
    }
    Fraction::new(n as i64, d).unwrap()
}

fn from_int(n: i64) -> Fraction {
    Fraction::from(n)
}

#[test]
fn greatest_common_denominator() {
    // works for either order of the arguments
    assert_eq!(gcd(10, 2), 2);
    assert_eq!(gcd(2, 10), 2);
    // making sure that we are not defaulting to a gcd of 1
    assert_ne!(gcd(10, 2), 1);
    // making sure that gcd(a,b) == gcd(abs(a), abs(b))
    assert_eq!(gcd(-10, 2), 2);
    assert_eq!(gcd(-10, -2), 2);
    // making sure that it works when the numbers do not share a common divisor
    assert_eq!(gcd(101, 13), 1);
    assert_eq!(gcd(11, 19), 1);
}

#[test]
fn set_up() {
    // check for the from operators
    // ints
    assert_eq!(from_int(3), Fraction::new(3, 1).unwrap());
    assert_eq!(from_int(-2), Fraction::new(-2, 1).unwrap());
    // decimals
    assert_eq!(frac(1.5), Fraction::new(3, 2).unwrap());
    assert_eq!(frac(-2.5), Fraction::new(-5, 2).unwrap());
    // check that we are reducing our fractions
    assert_eq!(from_int(3), Fraction::new(6, 2).unwrap());
    assert_eq!(frac(1.5), Fraction::new(6, 4).unwrap());
    // check that we are dealing with our signs properly
    assert_eq!(Fraction::new(-2, 1).unwrap(), Fraction::new(2, -1).unwrap());
    assert_eq!(Fraction::new(-2, -1).unwrap(), Fraction::new(2, 1).unwrap());
    // fraction of zero
    assert_eq!(Fraction::new(0, 1).unwrap(), from_int(0));
}

#[test]
fn zero_denom() {
    assert_eq!(Fraction::new(1, 0), Err(FracError::DivisionByZero));
}

#[test]
fn addition() {
    // fraction + fraction
    assert_eq!(from_int(1).add(from_int(2)).unwrap(), from_int(3));
    assert_eq!(frac(1.25).add(frac(2.5)).unwrap(), frac(3.75));
    // fraction + numeric
    assert_eq!(from_int(2).add(from_int(1)).unwrap(), from_int(3));
    assert_eq!(from_int(2).add(frac(1.5)).unwrap(), frac(3.5));
    // fraction + -fraction
    assert_eq!(from_int(5).add(from_int(-5)).unwrap(), from_int(0));
    assert_eq!(frac(-2.5).add(frac(2.5)).unwrap(), from_int(0));
    // fraction from int + fraction from decimal
    assert_eq!(from_int(2).add(frac(2.5)).unwrap(), Fraction::new(9, 2).unwrap());
}

#[test]
fn subtraction() {
    // fraction - fraction
    assert_eq!(from_int(1).sub(from_int(2)).unwrap(), from_int(-1));
    assert_eq!(frac(1.25).sub(frac(1.25)).unwrap(), from_int(0));
    // fraction - numeric
    assert_eq!(from_int(2).sub(from_int(1)).unwrap(), from_int(1));
    assert_eq!(from_int(2).sub(frac(1.5)).unwrap(), frac(0.5));
    // fraction - -fraction
    assert_eq!(from_int(5).sub(from_int(-5)).unwrap(), from_int(10));
    assert_eq!(frac(-2.5).sub(frac(2.5)).unwrap(), from_int(-5));
    // fraction from int - fraction from decimal
    assert_eq!(from_int(2).sub(frac(2.5)).unwrap(), Fraction::new(-1, 2).unwrap());
}

#[test]
fn multiplication() {
    // fraction * fraction
    assert_eq!(from_int(1).mul(from_int(1)).unwrap(), from_int(1));
    assert_eq!(frac(2.5).mul(frac(0.4)).unwrap(), from_int(1));
    // fraction * numeric
    assert_eq!(frac(2.5).mul(from_int(2)).unwrap(), from_int(5));
    assert_eq!(from_int(5).mul(frac(1.2)).unwrap(), from_int(6));
    // proper signs
    assert_eq!(from_int(-2).mul(from_int(1)).unwrap(), Fraction::new(2, -1).unwrap());
    assert_eq!(from_int(3).mul(from_int(-4)).unwrap(), from_int(-12));
    assert_eq!(frac(-0.4).mul(frac(-0.5)).unwrap(), frac(0.2));
    // fraction from int * fraction from decimal
    assert_eq!(frac(0.4).mul(from_int(3)).unwrap(), frac(1.2));
}

#[test]
fn division() {
    // fraction / fraction
    assert_eq!(from_int(1).div(from_int(1)).unwrap(), from_int(1));
    assert_eq!(frac(2.5).div(frac(0.4)).unwrap(), Fraction::new(25, 4).unwrap());
    // fraction / numeric
    assert_eq!(frac(2.5).div(from_int(2)).unwrap(), frac(1.25));
    assert_eq!(from_int(5).div(frac(1.2)).unwrap(), Fraction::new(25, 6).unwrap());
    // proper signs
    assert_eq!(from_int(-2).div(from_int(1)).unwrap(), Fraction::new(2, -1).unwrap());
    assert_eq!(from_int(3).div(from_int(-4)).unwrap(), Fraction::new(3, -4).unwrap());
    assert_eq!(frac(-0.4).div(frac(-0.5)).unwrap(), Fraction::new(4, 5).unwrap());
    // fraction from int / fraction from decimal
    assert_eq!(frac(0.4).div(from_int(3)).unwrap(), Fraction::new(4, 30).unwrap());
}

#[test]
fn comparisons() {
    // fraction and fraction
    assert!(from_int(-1) < from_int(1));
    assert!(frac(1.25) > frac(-1.25));
    assert!(from_int(2) > from_int(0));
    assert!(frac(1.75) > frac(0.75));
    // fraction and 1
    assert!(frac(1.1) > from_int(1));
    assert!(frac(0.99) < from_int(1));
    // fraction and numeric
    assert!(from_int(2) < frac(2.1));
    assert!(frac(1.5) < from_int(3));
}

#[test]
fn plus_equals() {
    let mut test_int = from_int(1);
    let mut test_float = frac(0.5);
    // Fraction + Fraction
    test_int = test_int.add(from_int(1)).unwrap();
    assert_eq!(test_int, Fraction::new(2, 1).unwrap());
    test_int = test_int.add(frac(1.5)).unwrap();
    assert_eq!(test_int, Fraction::new(7, 2).unwrap());
    test_float = test_float.add(from_int(1)).unwrap();
    assert_eq!(test_float, Fraction::new(3, 2).unwrap());
    test_float = test_float.add(frac(1.25)).unwrap();
    assert_eq!(test_float, Fraction::new(11, 4).unwrap());
    test_int = from_int(1);
    test_float = frac(0.5);
    // Fraction + int
    test_int = test_int.add(from_int(1)).unwrap();
    assert_eq!(test_int, from_int(2));
    test_float = test_float.add(from_int(1)).unwrap();
    assert_eq!(test_float, frac(1.5));
    // Fraction + decimal
    test_int = test_int.add(frac(1.5)).unwrap();
    assert_eq!(test_int, frac(3.5));
    test_float = test_float.add(frac(0.75)).unwrap();
    assert_eq!(test_float, frac(2.25));
}

#[test]
fn sub_equals() {
    let mut test_int = from_int(50);
    let mut test_float = frac(45.5);
    // Fraction - Fraction
    test_int = test_int.sub(from_int(9)).unwrap();
    test_float = test_float.sub(frac(5.25)).unwrap();
    assert_eq!(test_int, from_int(41));
    assert_eq!(test_float, frac(40.25));
    test_int = test_int.sub(frac(50.75)).unwrap();
    test_float = test_float.sub(frac(50.25)).unwrap();
    assert_eq!(test_int, frac(-9.75));
    assert_eq!(test_float, from_int(-10));
    // Fraction - int
    test_int = from_int(50);
    test_float = frac(45.5);
    test_int = test_int.sub(from_int(7)).unwrap();
    test_float = test_float.sub(from_int(9)).unwrap();
    assert_eq!(test_int, from_int(43));
    assert_eq!(test_float, frac(36.5));
    // Fraction - decimal
    test_int = test_int.sub(frac(5.5)).unwrap();
    test_float = test_float.sub(frac(0.75)).unwrap();
    assert_eq!(test_int, frac(37.5));
    assert_eq!(test_float, frac(35.75));
}

#[test]
fn times_equals() {
    let mut test_int = from_int(3);
    let mut test_float = Fraction::new(1, 3).unwrap();
    // Fraction * Fraction
    test_int = test_int.mul(from_int(8)).unwrap();
    test_float = test_float.mul(from_int(3)).unwrap();
    assert_eq!(test_int, from_int(24));
    assert_eq!(test_float, from_int(1));
    test_int = test_int.mul(frac(0.125)).unwrap();
    test_float = test_float.mul(frac(0.5)).unwrap();
    assert_eq!(test_int, from_int(3));
    assert_eq!(test_float, frac(0.5));
    // Fraction * int
    test_int = from_int(3);
    test_float = frac(0.25);
    test_int = test_int.mul(from_int(4)).unwrap();
    test_float = test_float.mul(from_int(4)).unwrap();
    assert_eq!(test_int, from_int(12));
    assert_eq!(test_float, from_int(1));
    // Fraction * decimal
    test_int = test_int.mul(frac(0.5)).unwrap();
    test_float = test_float.mul(from_int(4)).unwrap();
    test_float = test_float.mul(frac(1.25)).unwrap();
    assert_eq!(test_int, from_int(6));
    assert_eq!(test_float, from_int(5));
}

#[test]
fn div_equals() {
    let mut test_int = from_int(3);
    let mut test_float = frac(5.5);
    // Fraction / Fraction
    test_int = test_int.div(from_int(3)).unwrap();
    test_float = test_float.div(from_int(2)).unwrap();
    assert_eq!(test_int, from_int(1));
    assert_eq!(test_float, frac(2.75));
    test_int = test_int.div(frac(1.5)).unwrap();
    test_float = test_float.div(frac(0.25)).unwrap();
    assert_eq!(test_int, Fraction::new(2, 3).unwrap());
    assert_eq!(test_float, from_int(11));
    // Fraction / int
    test_int = from_int(25);
    test_float = frac(12.5);
    test_int = test_int.div(from_int(5)).unwrap();
    test_float = test_float.div(from_int(5)).unwrap();
    assert_eq!(test_int, from_int(5));
    assert_eq!(test_float, frac(2.5));
    // Fraction / decimal
    test_int = test_int.div(frac(2.5)).unwrap();
    test_float = test_float.div(frac(2.5)).unwrap();
    assert_eq!(test_int, from_int(2));
    assert_eq!(test_float, from_int(1));
}

#[test]
fn reduction_invariant() {
    // reduce always yields a positive denominator in lowest terms
    let cases: Vec<(i64, i64)> = vec![(10, 4), (-10, 4), (10, -4), (-10, -4), (7, 13), (0, 9)];
    for (n, d) in cases {
        let f = Fraction::reduce(n, d).unwrap();
        assert!(f.denominator() > 0);
        assert_eq!(gcd(f.numerator(), f.denominator()), 1);
    }
    assert_eq!(Fraction::reduce(10, 4).unwrap(), Fraction::new(5, 2).unwrap());
    assert_eq!(Fraction::reduce(0, 9).unwrap(), Fraction::new(0, 1).unwrap());
}

#[test]
fn division_by_zero_fraction() {
    assert_eq!(from_int(1).div(from_int(0)), Err(FracError::DivisionByZero));
}

#[test]
fn overflow_is_reported() {
    // the only unrepresentable reduction: negating i64::MIN
    assert_eq!(Fraction::new(i64::MIN, -1), Err(FracError::Overflow));
    assert_eq!(from_int(i64::MAX).add(from_int(1)), Err(FracError::Overflow));
    assert_eq!(from_int(i64::MIN).negate(), Err(FracError::Overflow));
    // an even denominator still reduces into range
    assert_eq!(
        Fraction::new(i64::MIN, -2).unwrap(),
        Fraction::new(i64::MAX / 2 + 1, 1).unwrap()
    );
}

#[test]
fn display_string() {
    assert_eq!(Fraction::new(3, 2).unwrap().to_display_string(), "3/2");
    assert_eq!(Fraction::new(-3, 2).unwrap().to_display_string(), "-3/2");
    assert_eq!(Fraction::new(0, 5).unwrap().to_display_string(), "0/1");
    assert_eq!(from_int(1234567).to_display_string(), "1234567/1");
}

#[test]
fn display_extremes() {
    assert_eq!(
        Fraction::new(i64::MIN, 1).unwrap().to_display_string(),
        "-9223372036854775808/1"
    );
    assert_eq!(
        Fraction::new(i64::MAX, 1).unwrap().to_display_string(),
        "9223372036854775807/1"
    );
}
