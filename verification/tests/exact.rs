use math_matrix::matrix::Matrix;
use std::ops::Add;
use std::ops::Div;
use std::ops::Mul;
use std::ops::Neg;
use std::ops::Sub;

/// A fraction in lowest terms with a positive denominator.
#[derive(Clone, Copy, Debug, PartialEq)]
struct Fraction {
    over: i64,
    under: i64,
}

fn gcd(a: i64, b: i64) -> i64 {
    if b == 0 {
        a.abs()
    } else {
        gcd(b, a % b)
    }
}

fn fraction(over: i64, under: i64) -> Fraction {
    assert!(under != 0);
    let sign = if under < 0 { -1 } else { 1 };
    let d = gcd(over, under);
    Fraction {
        over: sign * over / d,
        under: sign * under / d,
    }
}

impl From<i8> for Fraction {
    fn from(n: i8) -> Fraction {
        fraction(n as i64, 1)
    }
}

impl Add for Fraction {
    type Output = Fraction;
    fn add(self, other: Fraction) -> Fraction {
        fraction(
            self.over * other.under + other.over * self.under,
            self.under * other.under,
        )
    }
}

impl Sub for Fraction {
    type Output = Fraction;
    fn sub(self, other: Fraction) -> Fraction {
        fraction(
            self.over * other.under - other.over * self.under,
            self.under * other.under,
        )
    }
}

impl Mul for Fraction {
    type Output = Fraction;
    fn mul(self, other: Fraction) -> Fraction {
        fraction(self.over * other.over, self.under * other.under)
    }
}

impl Div for Fraction {
    type Output = Fraction;
    fn div(self, other: Fraction) -> Fraction {
        fraction(self.over * other.under, self.under * other.over)
    }
}

impl Neg for Fraction {
    type Output = Fraction;
    fn neg(self) -> Fraction {
        fraction(-self.over, self.under)
    }
}

fn whole(values: &[i64]) -> Vec<Fraction> {
    values.iter().map(|v| fraction(*v, 1)).collect()
}

fn thirds() -> Matrix<Fraction> {
    Matrix::new(3, 3, whole(&[3, 1, 2, 7, 5, 1, 2, 9, 4])).unwrap()
}

#[test]
fn fractions_factor_without_rounding() {
    let m = thirds();
    let (l, u) = m.decompose().unwrap();
    assert_eq!(l.get_value(1, 0).unwrap(), fraction(1, 3));
    assert_eq!(l.get_value(2, 0).unwrap(), fraction(2, 3));
    assert_eq!(u.get_value(1, 1).unwrap(), fraction(8, 3));
    for i in 0..3 {
        for j in 0..3 {
            if i == j {
                assert_eq!(l.get_value(i, j).unwrap(), fraction(1, 1));
            }
            if i < j {
                assert_eq!(l.get_value(i, j).unwrap(), fraction(0, 1));
            }
            if i > j {
                assert_eq!(u.get_value(i, j).unwrap(), fraction(0, 1));
            }
        }
    }
    assert_eq!(l.multiplied_by_matrix(&u).unwrap(), m);
}

#[test]
fn fractions_invert_without_rounding() {
    let m = thirds();
    let inverse = m.invert().unwrap();
    let identity: Matrix<Fraction> = Matrix::identity(3, 3).unwrap();
    assert_eq!(inverse.multiplied_by_matrix(&m).unwrap(), identity);
    assert_eq!(m.multiplied_by_matrix(&inverse).unwrap(), identity);
}

#[test]
fn fractions_solve_both_triangular_systems() {
    let m = thirds();
    let (l, u) = m.decompose().unwrap();
    let identity: Matrix<Fraction> = Matrix::identity(3, 3).unwrap();
    let y = l.invert().unwrap();
    assert_eq!(l.multiplied_by_matrix(&y).unwrap(), identity);
    let x = m.invert().unwrap();
    assert_eq!(u.multiplied_by_matrix(&x).unwrap(), y);
}

#[test]
fn fractions_keep_the_identity_laws() {
    let m = Matrix::new(2, 3, whole(&[1, -2, 3, 4, -5, 6])).unwrap();
    let two: Matrix<Fraction> = Matrix::identity(2, 2).unwrap();
    let three: Matrix<Fraction> = Matrix::identity(3, 3).unwrap();
    assert_eq!(two.multiplied_by_matrix(&m).unwrap(), m);
    assert_eq!(m.multiplied_by_matrix(&three).unwrap(), m);
}

#[test]
fn fractions_multiply_in_any_grouping() {
    let p = Matrix::new(2, 3, whole(&[1, -2, 3, 4, -5, 6])).unwrap();
    let q = Matrix::new(3, 2, whole(&[2, 0, 1, -1, 3, 5])).unwrap();
    let r = Matrix::new(2, 2, whole(&[7, 1, -3, 2])).unwrap();
    let left = p
        .multiplied_by_matrix(&q)
        .unwrap()
        .multiplied_by_matrix(&r)
        .unwrap();
    let right = p
        .multiplied_by_matrix(&q.multiplied_by_matrix(&r).unwrap())
        .unwrap();
    assert_eq!(left, right);
}

#[test]
fn floats_factor_within_tolerance() {
    let data: Vec<f64> = vec![3.0, 1.0, 2.0, 7.0, 5.0, 1.0, 2.0, 9.0, 4.0];
    let m = Matrix::new(3, 3, data).unwrap();
    let (l, u) = m.decompose().unwrap();
    let back = l.multiplied_by_matrix(&u).unwrap();
    for (found, wanted) in back.get_data().iter().zip(m.get_data().iter()) {
        assert!((found - wanted).abs() < 1e-12);
    }
    let inverse = m.invert().unwrap();
    let identity: Matrix<f64> = Matrix::identity(3, 3).unwrap();
    let product = inverse.multiplied_by_matrix(&m).unwrap();
    for (found, wanted) in product.get_data().iter().zip(identity.get_data().iter()) {
        assert!((found - wanted).abs() < 1e-12);
    }
}

#[test]
fn integers_factor_where_the_quotients_are_whole() {
    let m = Matrix::new(2, 2, vec![2i64, 6, 1, 4]).unwrap();
    let (l, u) = m.decompose().unwrap();
    assert_eq!(l.get_data(), vec![1, 3, 0, 1]);
    assert_eq!(u.get_data(), vec![2, 0, 1, 1]);
    assert_eq!(l.multiplied_by_matrix(&u).unwrap(), m);
    let sum = (m.clone() + m.clone()).unwrap();
    assert_eq!(sum.get_data(), vec![4, 12, 2, 8]);
    let difference = (sum - m).unwrap();
    assert_eq!(difference.get_data(), vec![2, 6, 1, 4]);
}
