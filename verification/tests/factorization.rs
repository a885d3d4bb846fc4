use math_matrix::algorithms::decompose;
use math_matrix::matrix::Matrix;

#[test]
fn decompose_refuses_what_is_not_square() {
    let m = Matrix::new(2, 3, vec![1.0, 2.0, 3.0, 4.0, 5.0, 6.0]).unwrap();
    let e = m.decompose().unwrap_err();
    assert_eq!(
        e.to_string(),
        "OperationNotPermitted error: LU decomposition allowed only for square matrices"
    );
    let e = decompose(&m.transposed()).unwrap_err();
    assert_eq!(e.get_kind(), "OperationNotPermitted");
}

#[test]
fn decompose_refuses_a_zero_pivot() {
    let m = Matrix::new(2, 2, vec![0.0, 1.0, 1.0, 0.0]).unwrap();
    let e = m.decompose().unwrap_err();
    assert_eq!(e.to_string(), "FailedToDecompose error: Found zero");
    let minus = Matrix::new(2, 2, vec![-0.0, 1.0, 1.0, 0.0]).unwrap();
    assert_eq!(minus.decompose().unwrap_err().get_kind(), "FailedToDecompose");
    let later = Matrix::new(3, 3, vec![1.0, 1.0, 1.0, 1.0, 1.0, 2.0, 1.0, 2.0, 1.0]).unwrap();
    assert_eq!(decompose(&later).unwrap_err().get_kind(), "FailedToDecompose");
}

#[test]
fn decompose_of_one_element() {
    let m = Matrix::new(1, 1, vec![0.0]).unwrap();
    let (l, u) = m.decompose().unwrap();
    assert_eq!(l.get_data(), vec![1.0]);
    assert_eq!(u.get_data(), vec![0.0]);
}

#[test]
fn decompose_records_the_multipliers() {
    let m = Matrix::new(2, 2, vec![4.0, 6.0, 3.0, 3.0]).unwrap();
    let (l, u) = m.decompose().unwrap();
    assert_eq!(l.get_data(), vec![1.0, 1.5, 0.0, 1.0]);
    assert_eq!(u.get_data(), vec![4.0, 0.0, 3.0, -1.5]);
    assert_eq!(l.multiplied_by_matrix(&u).unwrap(), m);
}

#[test]
fn decompose_keeps_the_last_pivot_unchecked() {
    let m = Matrix::new(2, 2, vec![1.0, 2.0, 2.0, 4.0]).unwrap();
    let (l, u) = m.decompose().unwrap();
    assert_eq!(l.get_data(), vec![1.0, 2.0, 0.0, 1.0]);
    assert_eq!(u.get_data(), vec![1.0, 0.0, 2.0, 0.0]);
}

#[test]
fn lower_factor_has_a_unit_diagonal() {
    let m = Matrix::new(
        3,
        3,
        vec![2.0, 4.0, -2.0, 1.0, 3.0, 5.0, -1.0, 0.5, 7.0],
    )
    .unwrap();
    let (l, u) = m.decompose().unwrap();
    for i in 0..3 {
        for j in 0..3 {
            if i == j {
                assert_eq!(l.get_value(i, j).unwrap(), 1.0);
            }
            if i < j {
                assert_eq!(l.get_value(i, j).unwrap(), 0.0);
            }
            if i > j {
                assert_eq!(u.get_value(i, j).unwrap(), 0.0);
            }
        }
    }
    assert_eq!(l.multiplied_by_matrix(&u).unwrap(), m);
}

#[test]
fn free_function_agrees_with_the_method() {
    let m = Matrix::new(
        3,
        3,
        vec![2.0, 4.0, -2.0, 1.0, 3.0, 5.0, -1.0, 0.5, 7.0],
    )
    .unwrap();
    let (l, u) = m.decompose().unwrap();
    let (fl, fu) = decompose(&m).unwrap();
    assert_eq!(l, fl);
    assert_eq!(u, fu);
}

#[test]
fn invert_of_a_small_matrix() {
    let m = Matrix::new(2, 2, vec![4.0, 2.0, 0.0, 2.0]).unwrap();
    let inverse = m.invert().unwrap();
    assert_eq!(inverse.get_data(), vec![0.25, -0.25, 0.0, 0.5]);
    let two: Matrix<f64> = Matrix::identity(2, 2).unwrap();
    assert_eq!(inverse.multiplied_by_matrix(&m).unwrap(), two);
    assert_eq!(m.multiplied_by_matrix(&inverse).unwrap(), two);
}

#[test]
fn invert_of_a_triangular_matrix() {
    let m = Matrix::new(
        3,
        3,
        vec![1.0, 2.0, 4.0, 0.0, 1.0, 8.0, 0.0, 0.0, 1.0],
    )
    .unwrap();
    let inverse = m.invert().unwrap();
    assert_eq!(
        inverse.get_data(),
        vec![1.0, -2.0, 12.0, 0.0, 1.0, -8.0, 0.0, 0.0, 1.0]
    );
    let three: Matrix<f64> = Matrix::identity(3, 3).unwrap();
    assert_eq!(inverse.multiplied_by_matrix(&m).unwrap(), three);
}

#[test]
fn invert_of_one_element() {
    let m = Matrix::new(1, 1, vec![8.0]).unwrap();
    assert_eq!(m.invert().unwrap().get_data(), vec![0.125]);
}

#[test]
fn invert_passes_on_what_decompose_refuses() {
    let wide = Matrix::new(2, 3, vec![1.0, 2.0, 3.0, 4.0, 5.0, 6.0]).unwrap();
    let e = wide.invert().unwrap_err();
    assert_eq!(
        e.to_string(),
        "OperationNotPermitted error: LU decomposition allowed only for square matrices"
    );
    let pivot = Matrix::new(2, 2, vec![0.0, 1.0, 1.0, 0.0]).unwrap();
    let e = pivot.invert().unwrap_err();
    assert_eq!(e.to_string(), "FailedToDecompose error: Found zero");
}

#[test]
fn invert_refuses_a_zero_on_the_diagonal() {
    let singular = Matrix::new(2, 2, vec![1.0, 2.0, 2.0, 4.0]).unwrap();
    let e = singular.invert().unwrap_err();
    assert_eq!(
        e.to_string(),
        "FailedToDecompose error: Found zero on the diagonal of U"
    );
    let nothing = Matrix::new(1, 1, vec![0.0]).unwrap();
    assert_eq!(nothing.invert().unwrap_err().get_kind(), "FailedToDecompose");
}

#[test]
fn invert_of_a_full_matrix_within_tolerance() {
    let data: Vec<f64> = vec![
        3.0, 2.0, 3.0, 1.0, 6.0, 5.0, 4.0, -5.0, -9.0, -6.0, -8.0, -1.0, 12.0, 8.0, 12.0, 5.0,
    ];
    let mat = Matrix::new(4, 4, data).unwrap();
    let inverse = mat.invert().unwrap();
    let product = inverse.multiplied_by_matrix(&mat).unwrap();
    let identity: Matrix<f64> = Matrix::identity(4, 4).unwrap();
    assert_eq!(product.get_size(), (4, 4));
    for (found, wanted) in product.get_data().iter().zip(identity.get_data().iter()) {
        assert!((found - wanted).abs() < 1e-12);
    }
}
