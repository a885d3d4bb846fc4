use math_matrix::matrix::Matrix;

fn sample() -> Matrix<f64> {
    Matrix::new(2, 3, vec![1.0, 2.0, 3.0, 4.0, 5.0, 6.0]).unwrap()
}

#[test]
fn new_refuses_an_empty_dimension() {
    let no_rows = Matrix::new(0, 3, Vec::<f64>::new()).unwrap_err();
    assert_eq!(no_rows.get_kind(), "FailedToInitialize");
    assert_eq!(no_rows.get_message(), "Rows and columns must be lager than 0");
    let no_cols = Matrix::new(3, 0, Vec::<f64>::new()).unwrap_err();
    assert_eq!(no_cols.get_kind(), "FailedToInitialize");
    let with_data = Matrix::new(0, 0, vec![1.0]).unwrap_err();
    assert_eq!(
        with_data.to_string(),
        "FailedToInitialize error: Rows and columns must be lager than 0"
    );
}

#[test]
fn new_refuses_data_of_another_length() {
    let long = Matrix::new(2, 2, vec![1.0, 2.0, 3.0, 4.0, 5.0]).unwrap_err();
    assert_eq!(long.get_kind(), "FailedToInitialize");
    assert_eq!(long.get_message(), "Size of data != rows * cols: 5 != 4");
    let none = Matrix::new(1, 1, Vec::<f64>::new()).unwrap_err();
    assert_eq!(none.get_message(), "Size of data != rows * cols: 0 != 1");
}

#[test]
fn new_refuses_a_shape_beyond_any_vector() {
    let e = Matrix::new(usize::MAX, usize::MAX, vec![1.0]).unwrap_err();
    assert_eq!(e.get_kind(), "FailedToInitialize");
    let product = (usize::MAX as u128) * (usize::MAX as u128);
    assert_eq!(
        e.get_message(),
        format!("Size of data != rows * cols: 1 != {}", product)
    );
}

#[test]
fn new_keeps_shape_and_data() {
    let m = sample();
    assert_eq!(m.get_size(), (2, 3));
    assert_eq!(m.get_data(), vec![1.0, 2.0, 3.0, 4.0, 5.0, 6.0]);
}

#[test]
fn elements_are_stored_column_by_column() {
    let m = sample();
    assert_eq!(m.get_value(0, 0).unwrap(), 1.0);
    assert_eq!(m.get_value(1, 0).unwrap(), 2.0);
    assert_eq!(m.get_value(0, 1).unwrap(), 3.0);
    assert_eq!(m.get_value(1, 1).unwrap(), 4.0);
    assert_eq!(m.get_value(0, 2).unwrap(), 5.0);
    assert_eq!(m.get_value(1, 2).unwrap(), 6.0);
}

#[test]
fn get_value_refuses_the_dimension_itself() {
    let m = sample();
    let row = m.get_value(2, 0).unwrap_err();
    assert_eq!(row.get_kind(), "OutOfBoundary");
    assert_eq!(row.get_message(), "Row 2 > 2");
    let col = m.get_value(0, 3).unwrap_err();
    assert_eq!(col.get_kind(), "OutOfBoundary");
    assert_eq!(col.get_message(), "Column 3 > 3");
    let both = m.get_value(7, 9).unwrap_err();
    assert_eq!(both.to_string(), "OutOfBoundary error: Row 7 > 2");
    assert!(m.get_value(1, 2).is_ok());
}

#[test]
fn set_value_changes_one_element() {
    let mut m = sample();
    m.set_value(1, 2, 60.0).unwrap();
    assert_eq!(m.get_data(), vec![1.0, 2.0, 3.0, 4.0, 5.0, 60.0]);
    m.set_value(0, 1, 30.0).unwrap();
    assert_eq!(m.get_data(), vec![1.0, 2.0, 30.0, 4.0, 5.0, 60.0]);
    assert_eq!(m.get_size(), (2, 3));
}

#[test]
fn set_value_refuses_and_changes_nothing() {
    let mut m = sample();
    let row = m.set_value(2, 1, 9.0).unwrap_err();
    assert_eq!(row.get_kind(), "OutOfBoundary");
    assert_eq!(row.get_message(), "Row 2 > 2");
    let col = m.set_value(1, 3, 9.0).unwrap_err();
    assert_eq!(col.get_kind(), "OutOfBoundary");
    assert_eq!(col.get_message(), "Column 3 > 3");
    assert_eq!(m, sample());
}

#[test]
fn zeros_of_every_shape() {
    let m: Matrix<f64> = Matrix::zeros(3, 2).unwrap();
    assert_eq!(m.get_size(), (3, 2));
    assert_eq!(m.get_data(), vec![0.0; 6]);
    assert_eq!(m, Matrix::new(3, 2, vec![0.0; 6]).unwrap());
}

#[test]
fn zeros_and_identity_refuse_bad_shapes() {
    let empty = Matrix::<f64>::zeros(0, 4).unwrap_err();
    assert_eq!(
        empty.to_string(),
        "FailedToInitialize error: Rows and columns must be lager than 0"
    );
    let empty = Matrix::<f64>::identity(4, 0).unwrap_err();
    assert_eq!(empty.get_kind(), "FailedToInitialize");
    let huge = Matrix::<f64>::zeros(usize::MAX, 2).unwrap_err();
    assert_eq!(huge.get_kind(), "FailedToInitialize");
    let product = (usize::MAX as u128) * 2;
    assert_eq!(
        huge.get_message(),
        format!(
            "Rows * cols exceeds the largest size of data: {} > {}",
            product,
            usize::MAX
        )
    );
    let huge = Matrix::<f64>::identity(2, usize::MAX).unwrap_err();
    assert_eq!(huge.get_kind(), "FailedToInitialize");
}

#[test]
fn identity_of_tall_and_square_shapes() {
    let tall: Matrix<f64> = Matrix::identity(3, 2).unwrap();
    assert_eq!(tall.get_data(), vec![1.0, 0.0, 0.0, 0.0, 1.0, 0.0]);
    let square: Matrix<f64> = Matrix::identity(2, 2).unwrap();
    assert_eq!(square.get_data(), vec![1.0, 0.0, 0.0, 1.0]);
    let one: Matrix<f64> = Matrix::identity(1, 1).unwrap();
    assert_eq!(one.get_data(), vec![1.0]);
}

#[test]
fn rows_and_columns_are_copied_out() {
    let m = sample();
    let row = m.get_row(1).unwrap();
    assert_eq!(row.get_size(), (1, 3));
    assert_eq!(row.get_data(), vec![2.0, 4.0, 6.0]);
    let column = m.get_column(2).unwrap();
    assert_eq!(column.get_size(), (2, 1));
    assert_eq!(column.get_data(), vec![5.0, 6.0]);
    assert_eq!(m.get_row(2).unwrap_err().to_string(), "OutOfBoundary error: Row 2 > 2");
    assert_eq!(
        m.get_column(3).unwrap_err().to_string(),
        "OutOfBoundary error: Column 3 > 3"
    );
}

#[test]
fn rows_and_columns_are_overwritten() {
    let mut m = sample();
    m.set_row(0, vec![10.0, 30.0, 50.0]).unwrap();
    assert_eq!(m.get_data(), vec![10.0, 2.0, 30.0, 4.0, 50.0, 6.0]);
    m.set_column(1, vec![7.0, 8.0]).unwrap();
    assert_eq!(m.get_data(), vec![10.0, 2.0, 7.0, 8.0, 50.0, 6.0]);
    assert_eq!(m.get_size(), (2, 3));
}

#[test]
fn rows_and_columns_of_another_size_are_refused() {
    let mut m = sample();
    let short = m.set_row(0, vec![1.0, 2.0]).unwrap_err();
    assert_eq!(short.to_string(), "SizeMismatch error: Size of row != cols: 2 != 3");
    let long = m.set_column(0, vec![1.0, 2.0, 3.0]).unwrap_err();
    assert_eq!(long.to_string(), "SizeMismatch error: Size of column != rows: 3 != 2");
    let outside = m.set_row(2, vec![1.0, 2.0, 3.0]).unwrap_err();
    assert_eq!(outside.to_string(), "OutOfBoundary error: Row 2 > 2");
    let outside = m.set_column(3, vec![1.0, 2.0]).unwrap_err();
    assert_eq!(outside.to_string(), "OutOfBoundary error: Column 3 > 3");
    assert_eq!(m, sample());
}

#[test]
fn clone_is_an_equal_matrix_of_its_own() {
    let m = sample();
    let mut copy = m.clone();
    assert_eq!(copy, m);
    copy.set_value(0, 0, -1.0).unwrap();
    assert_ne!(copy, m);
    assert_eq!(m.get_value(0, 0).unwrap(), 1.0);
}

#[test]
fn equality_compares_shape_and_elements() {
    let a = Matrix::new(2, 3, vec![1.0, 2.0, 3.0, 4.0, 5.0, 6.0]).unwrap();
    let b = Matrix::new(3, 2, vec![1.0, 2.0, 3.0, 4.0, 5.0, 6.0]).unwrap();
    assert_ne!(a, b);
    let zero = Matrix::new(1, 2, vec![0.0, 1.0]).unwrap();
    let minus_zero = Matrix::new(1, 2, vec![-0.0, 1.0]).unwrap();
    assert_eq!(zero, minus_zero);
    let nan = Matrix::new(1, 1, vec![f64::NAN]).unwrap();
    assert_ne!(nan, nan.clone());
}

#[test]
fn integers_are_elements_too() {
    let m: Matrix<i64> = Matrix::identity(2, 2).unwrap();
    assert_eq!(m.get_data(), vec![1, 0, 0, 1]);
    let n = Matrix::new(2, 2, vec![1i64, 2, 3, 4]).unwrap();
    assert_eq!(m.multiplied_by_matrix(&n).unwrap(), n);
}
