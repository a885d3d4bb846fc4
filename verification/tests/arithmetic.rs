use math_matrix::matrix::Matrix;

fn left() -> Matrix<f64> {
    Matrix::new(2, 3, vec![1.0, 2.0, 3.0, 4.0, 5.0, 6.0]).unwrap()
}

fn right() -> Matrix<f64> {
    Matrix::new(2, 3, vec![0.5, -2.0, 10.0, 0.0, 1.5, 6.0]).unwrap()
}

#[test]
fn sum_is_elementwise() {
    let sum = (left() + right()).unwrap();
    assert_eq!(sum.get_size(), (2, 3));
    assert_eq!(sum.get_data(), vec![1.5, 0.0, 13.0, 4.0, 6.5, 12.0]);
}

#[test]
fn difference_is_elementwise() {
    let difference = (left() - right()).unwrap();
    assert_eq!(difference.get_size(), (2, 3));
    assert_eq!(difference.get_data(), vec![0.5, 4.0, -7.0, 4.0, 3.5, 0.0]);
}

#[test]
fn sum_and_difference_refuse_other_shapes() {
    let turned = left().transposed();
    let e = (left() + turned.clone()).unwrap_err();
    assert_eq!(
        e.to_string(),
        "SizeMismatch error: Operation not allowed between matrices with different sizes"
    );
    let e = (left() - turned).unwrap_err();
    assert_eq!(e.get_kind(), "SizeMismatch");
    let flat = Matrix::new(1, 6, vec![1.0, 2.0, 3.0, 4.0, 5.0, 6.0]).unwrap();
    assert_eq!((left() + flat).unwrap_err().get_kind(), "SizeMismatch");
}

#[test]
fn scalar_product_multiplies_every_element() {
    let m = left().multiplied_by_scalar(-0.5);
    assert_eq!(m.get_size(), (2, 3));
    assert_eq!(m.get_data(), vec![-0.5, -1.0, -1.5, -2.0, -2.5, -3.0]);
}

#[test]
fn product_of_rectangular_matrices() {
    let a = Matrix::new(2, 3, vec![1.0, 4.0, 2.0, 5.0, 3.0, 6.0]).unwrap();
    let b = Matrix::new(3, 2, vec![7.0, 9.0, 11.0, 8.0, 10.0, 12.0]).unwrap();
    let p = a.multiplied_by_matrix(&b).unwrap();
    assert_eq!(p.get_size(), (2, 2));
    assert_eq!(p.get_data(), vec![58.0, 139.0, 64.0, 154.0]);
    let q = b.multiplied_by_matrix(&a).unwrap();
    assert_eq!(q.get_size(), (3, 3));
    assert_eq!(
        q.get_data(),
        vec![39.0, 49.0, 59.0, 54.0, 68.0, 82.0, 69.0, 87.0, 105.0]
    );
}

#[test]
fn product_adds_from_zero_in_increasing_order() {
    let big = 9007199254740992.0;
    let a = Matrix::new(1, 3, vec![big, 1.0, 1.0]).unwrap();
    let b = Matrix::new(3, 1, vec![1.0, 1.0, 1.0]).unwrap();
    let p = a.multiplied_by_matrix(&b).unwrap();
    assert_eq!(p.get_data(), vec![(0.0 + big + 1.0) + 1.0]);
    assert_eq!(p.get_data(), vec![big]);
}

#[test]
fn product_refuses_factors_that_do_not_meet() {
    let e = left().multiplied_by_matrix(&right()).unwrap_err();
    assert_eq!(
        e.to_string(),
        "SizeMismatch error: Multiplication allowed for NxM * MxO"
    );
    assert!(left().multiplied_by_matrix(&right().transposed()).is_ok());
}

#[test]
fn transposed_turns_the_shape_over() {
    let t = left().transposed();
    assert_eq!(t.get_size(), (3, 2));
    assert_eq!(t.get_data(), vec![1.0, 3.0, 5.0, 2.0, 4.0, 6.0]);
    for i in 0..2 {
        for j in 0..3 {
            assert_eq!(t.get_value(j, i).unwrap(), left().get_value(i, j).unwrap());
        }
    }
}

#[test]
fn transposed_twice_is_the_matrix() {
    assert_eq!(left().transposed().transposed(), left());
    let column = Matrix::new(4, 1, vec![1.0, -2.0, 3.5, 0.0]).unwrap();
    assert_eq!(column.transposed().transposed(), column);
    assert_eq!(
        column.transposed().transposed().get_data(),
        column.get_data()
    );
}

#[test]
fn identity_on_either_side_keeps_the_matrix() {
    let m = left();
    let two: Matrix<f64> = Matrix::identity(2, 2).unwrap();
    let three: Matrix<f64> = Matrix::identity(3, 3).unwrap();
    assert_eq!(two.multiplied_by_matrix(&m).unwrap(), m);
    assert_eq!(m.multiplied_by_matrix(&three).unwrap(), m);
    let negative = Matrix::new(2, 2, vec![-1.0, -0.0, 2.5, -7.0]).unwrap();
    assert_eq!(two.multiplied_by_matrix(&negative).unwrap(), negative);
    assert_eq!(negative.multiplied_by_matrix(&two).unwrap(), negative);
}

#[test]
fn identity_does_not_keep_what_is_not_finite() {
    let m = Matrix::new(2, 2, vec![f64::INFINITY, 1.0, 2.0, 3.0]).unwrap();
    let two: Matrix<f64> = Matrix::identity(2, 2).unwrap();
    let p = two.multiplied_by_matrix(&m).unwrap();
    assert_ne!(p, m);
    assert!(p.get_value(1, 0).unwrap().is_nan());
}
