use math_matrix::algorithms::decompose;
use math_matrix::matrix::Matrix;

#[test]
fn test_new() {
    let mat = Matrix::new(2, 3, vec![0.1, 0.3, 5.0, 6.0, 0.0, 0.0]).unwrap();
    assert_eq!(mat.get_size().0, 2);
    assert_eq!(mat.get_size().1, 3);
    assert_eq!(mat.get_data(), vec![0.1, 0.3, 5.0, 6.0, 0.0, 0.0]);
}

#[test]
fn test_identity() {
    let mat: Matrix<f64> = Matrix::identity(3, 4).unwrap();
    assert_eq!(mat.get_size().0, 3);
    assert_eq!(mat.get_size().1, 4);
    assert_eq!(
        mat.get_data(),
        vec![1.0, 0.0, 0.0, 0.0, 1.0, 0.0, 0.0, 0.0, 1.0, 0.0, 0.0, 0.0]
    );
}

#[test]
fn test_zeros() {
    let mat: Matrix<f64> = Matrix::zeros(2, 1).unwrap();
    assert_eq!(mat.get_size().0, 2);
    assert_eq!(mat.get_size().1, 1);
    assert_eq!(mat.get_data(), vec![0.0, 0.0]);
}

#[test]
fn test_transpose() {
    let mat = Matrix::new(2, 3, vec![0.1, 0.3, 5.0, 6.0, 0.0, 0.0])
        .unwrap()
        .transposed();
    assert_eq!(mat.get_size().0, 3);
    assert_eq!(mat.get_size().1, 2);
    assert_eq!(mat.get_data(), vec![0.1, 5.0, 0.0, 0.3, 6.0, 0.0]);
}

#[test]
fn test_set_value() {
    let mut mat = Matrix::new(2, 3, vec![0.1, 0.3, 5.0, 6.0, 0.0, 0.0]).unwrap();
    let refused = mat.set_value(2, 0, 100.).unwrap_err();
    assert_eq!(refused.get_kind(), "OutOfBoundary");
    mat.set_value(1, 1, 10.).unwrap();
    assert_eq!(mat.get_data()[3], 10.0);
}

#[test]
fn test_new_matrix_error() {
    let mat = Matrix::new(2, 3, vec![0.1, 0.3, 5.0, 6.0, 0.0]).unwrap_err();
    assert_eq!(
        mat.to_string(),
        "FailedToInitialize error: Size of data != rows * cols: 5 != 6"
    );
}

#[test]
fn test_multiplied_by_matrix() {
    let mat1 = Matrix::new(3, 3, vec![1.0, 0.0, 1.0, 2.0, 0.0, 1.0, 1.0, 0.0, -1.0]).unwrap();
    let mat2 = Matrix::new(3, 2, vec![2.0, 1.0, 0.0, 1.0, 1.0, 1.0]).unwrap();
    let calculated = mat1.multiplied_by_matrix(&mat2).unwrap();
    let expected = Matrix::new(3, 2, vec![4.0, 0.0, 3.0, 4.0, 0.0, 1.0]).unwrap();
    assert_eq!(calculated, expected);
}

#[test]
fn test_multiplied_by_scalar() {
    let mat1 = Matrix::new(3, 3, vec![1.0, 0.0, 1.0, 2.0, 0.0, 1.0, 1.0, 0.0, -1.0]).unwrap();
    let mat2 = mat1.multiplied_by_scalar(2.0);
    assert_eq!(
        mat2.get_data(),
        vec![2.0, 0.0, 2.0, 4.0, 0.0, 2.0, 2.0, 0.0, -2.0]
    );
}

#[test]
fn matrix_test_decompose() {
    let l_given = Matrix::new(
        4,
        4,
        vec![
            1.0, 2.0, -3.0, 4.0, 0.0, 1.0, 0.0, 0.0, 0.0, 0.0, 1.0, 0.0, 0.0, 0.0, 0.0, 1.0,
        ],
    )
    .unwrap();
    let u_given = Matrix::new(
        4,
        4,
        vec![
            3.0, 0.0, 0.0, 0.0, 2.0, 1.0, 0.0, 0.0, 3.0, -2.0, 1.0, 0.0, 1.0, -7.0, 2.0, 1.0,
        ],
    )
    .unwrap();

    let mat = l_given.multiplied_by_matrix(&u_given).unwrap();
    println!("{:?}", mat.get_data());
    let (l, u) = mat.decompose().unwrap();
    assert_eq!(l, l_given,);
    assert_eq!(u, u_given);
    assert_eq!(l.multiplied_by_matrix(&u).unwrap(), mat)
}

#[test]
fn test_invert() {
    let data: Vec<f64> = vec![
        3.0, 6.0, -9.0, 12.0, 2.0, 5.0, -6.0, 8.0, 3.0, 4.0, -8.0, 12.0, 1.0, -5.0, -1.0, 5.0,
    ];
    let mat = Matrix::new(4, 4, data).unwrap();
    let inv_mat = mat.invert().unwrap();
    let identity = inv_mat.multiplied_by_matrix(&mat).unwrap();
    let expected: Matrix<f64> = Matrix::identity(4, 4).unwrap();
    assert_eq!(identity.get_size(), expected.get_size());
    for (found, wanted) in identity.get_data().iter().zip(expected.get_data().iter()) {
        assert!((found - wanted).abs() < 1e-12);
    }
}

#[test]
fn algorithms_test_decompose() {
    let data: Vec<f64> = vec![
        1.0, 1.0, 3.0, 0.0, 1.0, -2.0, -6.0, 0.0, -1.0, 3.0, 1.0, 0.0, 0.0, 0.0, 0.0, 1.0,
    ];
    let mat = Matrix::new(4, 4, data).unwrap();
    let (l, u) = decompose(&mat).unwrap();
    assert_eq!(
        l.get_data(),
        [1.0, 1.0, 3.0, 0.0, 0.0, 1.0, 3.0, -0.0, 0.0, 0.0, 1.0, -0.0, 0.0, 0.0, 0.0, 1.0]
    );
    assert_eq!(
        u.get_data(),
        [1.0, 0.0, 0.0, 0.0, 1.0, -3.0, 0.0, 0.0, -1.0, 4.0, -8.0, 0.0, 0.0, 0.0, 0.0, 1.0]
    );
    assert_eq!(l.multiplied_by_matrix(&u).unwrap(), mat)
}
