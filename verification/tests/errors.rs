use math_matrix::error::MathMatrixError;
use math_matrix::error::MathMatrixErrorKind;
use math_matrix::text::to_decimal;

#[test]
fn error_keeps_kind_and_message() {
    let e = MathMatrixError::new(MathMatrixErrorKind::SizeMismatch, "3 != 4".to_owned());
    assert_eq!(e.get_kind(), "SizeMismatch");
    assert_eq!(e.get_message(), "3 != 4");
    assert_eq!(e.to_string(), "SizeMismatch error: 3 != 4");
}

#[test]
fn error_names_every_kind() {
    let kinds = [
        (MathMatrixErrorKind::FailedToInitialize, "FailedToInitialize"),
        (MathMatrixErrorKind::OutOfBoundary, "OutOfBoundary"),
        (MathMatrixErrorKind::SizeMismatch, "SizeMismatch"),
        (MathMatrixErrorKind::FailedToDecompose, "FailedToDecompose"),
        (MathMatrixErrorKind::OperationNotPermitted, "OperationNotPermitted"),
    ];
    for (kind, name) in kinds {
        let e = MathMatrixError::new(kind, "m".to_owned());
        assert_eq!(e.get_kind(), name);
        assert_eq!(e.to_string(), format!("{} error: m", name));
        assert_eq!(format!("{:?}", kind), name);
    }
}

#[test]
fn error_with_empty_message() {
    let e = MathMatrixError::new(MathMatrixErrorKind::OutOfBoundary, String::new());
    assert_eq!(e.get_message(), "");
    assert_eq!(e.to_string(), "OutOfBoundary error: ");
}

#[test]
fn decimal_of_small_and_large_numbers() {
    assert_eq!(to_decimal(0), "0");
    assert_eq!(to_decimal(7), "7");
    assert_eq!(to_decimal(10), "10");
    assert_eq!(to_decimal(1905), "1905");
    assert_eq!(to_decimal(u128::MAX), "340282366920938463463374607431768211455");
}
