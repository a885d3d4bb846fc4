//! Algorithms on matrices, as free functions.

use crate::error::MathMatrixError;
use crate::error::MathMatrixErrorKind;
use crate::matrix::decomposition::lu;
use crate::matrix::decomposition::lu_defined;
use crate::matrix::decomposition::not_square_message;
use crate::matrix::decomposition::unit_lower;
use crate::matrix::decomposition::zero_pivot_message;
use crate::matrix::Matrix;
use crate::scalar::exact;
use crate::scalar::safe;
use crate::scalar::Scalar;
use vstd::prelude::*;

verus! {

/// Factors `mat` into a unit lower-triangular `L` and an upper `U`, returned
/// in this order, by elimination without pivoting.
///
/// Fails when `mat` is not square, or when a pivot is zero.
pub fn decompose<T: Scalar>(mat: &Matrix<T>) -> (res: Result<
    (Matrix<T>, Matrix<T>),
    MathMatrixError,
>)
    requires
        mat@.square() ==> safe::<T>(lu_defined(mat@)),
    ensures
        !mat@.square() ==> (res matches Err(e) && e.kind()
            == MathMatrixErrorKind::OperationNotPermitted && e.message() == not_square_message()),
        mat@.square() ==> (res matches Err(e) ==> e.kind() == MathMatrixErrorKind::FailedToDecompose
            && e.message() == zero_pivot_message()),
        mat@.square() && exact::<T>() ==> (res is Err <==> lu(mat@) is None),
        res matches Ok(factors) ==> factors.0@.wf() && factors.1@.wf() && factors.0@.same_shape(
            mat@,
        ) && factors.1@.same_shape(mat@),
        res matches Ok(factors) ==> exact::<T>() ==> lu(mat@) == Some((factors.0@, factors.1@)),
        res matches Ok(factors) ==> exact::<T>() ==> unit_lower(factors.0@),
{
    mat.decompose()
}

} // verus!
