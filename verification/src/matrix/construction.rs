//! Matrices of zeros and identity matrices.

use crate::error::MathMatrixError;
use crate::error::MathMatrixErrorKind;
use crate::grid::lemma_flat_index;
use crate::grid::lemma_tabulate;
use crate::grid::Grid;
use crate::matrix::empty_shape_message;
use crate::matrix::labelled;
use crate::matrix::Matrix;
use crate::scalar::exact;
use crate::scalar::one;
use crate::scalar::zero;
use crate::scalar::Scalar;
use crate::text::decimal;
use vstd::prelude::*;

verus! {

/// The message of a construction whose shape has `size` positions, more than
/// the `limit` that a vector can hold.
pub open spec fn capacity_message(size: nat, limit: nat) -> Seq<char> {
    "Rows * cols exceeds the largest size of data: "@ + decimal(size) + " > "@ + decimal(limit)
}

/// The grid of the given shape that holds zero everywhere.
pub open spec fn zeros_grid<T: Scalar>(rows: nat, cols: nat) -> Grid<T> {
    Grid::tabulate(rows, cols, |i: int, j: int| zero::<T>())
}

/// The grid of the given shape that holds one where the row and the column
/// agree, and zero elsewhere.
pub open spec fn identity_grid<T: Scalar>(rows: nat, cols: nat) -> Grid<T> {
    Grid::tabulate(
        rows,
        cols,
        |i: int, j: int|
            if i == j {
                one::<T>()
            } else {
                zero::<T>()
            },
    )
}

/// The identity grid holds one on the diagonal and zero elsewhere.
pub proof fn lemma_identity<T: Scalar>(rows: nat, cols: nat)
    requires
        rows > 0,
        cols > 0,
    ensures
        identity_grid::<T>(rows, cols).wf(),
        forall|i: int, j: int|
            0 <= i < rows && 0 <= j < cols ==> #[trigger] identity_grid::<T>(rows, cols).at(i, j)
                == if i == j {
                one::<T>()
            } else {
                zero::<T>()
            },
{
    lemma_tabulate(
        identity_grid::<T>(rows, cols),
        |i: int, j: int|
            if i == j {
                one::<T>()
            } else {
                zero::<T>()
            },
    );
}

/// The number of positions of a shape, where a vector can hold that many
/// elements.
fn positions(rows: usize, cols: usize) -> (res: Result<usize, MathMatrixError>)
    ensures
        res is Ok <==> rows * cols <= usize::MAX,
        res matches Ok(n) ==> n == rows * cols,
        res matches Err(e) ==> e.kind() == MathMatrixErrorKind::FailedToInitialize && e.message()
            == capacity_message((rows * cols) as nat, usize::MAX as nat),
{
    assert(rows * cols <= u128::MAX) by (nonlinear_arith)
        requires
            rows <= 0xffff_ffff_ffff_ffff,
            cols <= 0xffff_ffff_ffff_ffff,
    ;
    let size: u128 = (rows as u128) * (cols as u128);
    if size > usize::MAX as u128 {
        return Err(
            MathMatrixError::new(
                MathMatrixErrorKind::FailedToInitialize,
                labelled(
                    "Rows * cols exceeds the largest size of data: ",
                    size,
                    " > ",
                    usize::MAX as u128,
                ),
            ),
        );
    }
    Ok(size as usize)
}

impl<T: Scalar> Matrix<T> {
    /// The matrix of the given shape that holds zero everywhere.
    ///
    /// Fails when a dimension is zero, or when the shape has more positions
    /// than a vector can hold.
    pub fn zeros(rows: usize, cols: usize) -> (res: Result<Self, MathMatrixError>)
        ensures
            res is Ok <==> rows > 0 && cols > 0 && rows * cols <= usize::MAX,
            res matches Ok(m) ==> m@.wf() && m@.rows == rows && m@.cols == cols,
            res matches Ok(m) ==> exact::<T>() ==> m@ == zeros_grid::<T>(rows as nat, cols as nat),
            res matches Err(e) ==> e.kind() == MathMatrixErrorKind::FailedToInitialize,
            res matches Err(e) ==> e.message() == if rows == 0 || cols == 0 {
                empty_shape_message()
            } else {
                capacity_message((rows * cols) as nat, usize::MAX as nat)
            },
    {
        let n = match positions(rows, cols) {
            Ok(n) => n,
            Err(e) => {
                return Err(e);
            },
        };
        let nothing = T::from(0i8);
        let mut data: Vec<T> = Vec::with_capacity(n);
        let mut k: usize = 0;
        while k < n
            invariant
                k <= n,
                data.len() == k,
                forall|p: int| 0 <= p < k ==> data[p] == nothing,
            decreases n - k,
        {
            data.push(nothing);
            k = k + 1;
        }
        proof {
            if exact::<T>() {
                assert(data@ =~= zeros_grid::<T>(rows as nat, cols as nat).cells);
            }
        }
        Matrix::new(rows, cols, data)
    }

    /// The matrix of the given shape that holds one on the diagonal and zero
    /// elsewhere. The shape need not be square.
    ///
    /// Fails when a dimension is zero, or when the shape has more positions
    /// than a vector can hold.
    pub fn identity(rows: usize, cols: usize) -> (res: Result<Self, MathMatrixError>)
        ensures
            res is Ok <==> rows > 0 && cols > 0 && rows * cols <= usize::MAX,
            res matches Ok(m) ==> m@.wf() && m@.rows == rows && m@.cols == cols,
            res matches Ok(m) ==> exact::<T>() ==> m@ == identity_grid::<T>(
                rows as nat,
                cols as nat,
            ),
            res matches Err(e) ==> e.kind() == MathMatrixErrorKind::FailedToInitialize,
            res matches Err(e) ==> e.message() == if rows == 0 || cols == 0 {
                empty_shape_message()
            } else {
                capacity_message((rows * cols) as nat, usize::MAX as nat)
            },
    {
        let n = match positions(rows, cols) {
            Ok(n) => n,
            Err(e) => {
                return Err(e);
            },
        };
        let nothing = T::from(0i8);
        let unit = T::from(1i8);
        let mut data: Vec<T> = Vec::with_capacity(n);
        let mut j: usize = 0;
        while j < cols
            invariant
                j <= cols,
                rows * cols == n,
                data.len() == j * rows,
                forall|p: int|
                    0 <= p < data.len() ==> data[p] == if p % (rows as int) == p / (rows as int) {
                        unit
                    } else {
                        nothing
                    },
            decreases cols - j,
        {
            let mut i: usize = 0;
            while i < rows
                invariant
                    i <= rows,
                    j < cols,
                    rows * cols == n,
                    data.len() == j * rows + i,
                    forall|p: int|
                        0 <= p < data.len() ==> data[p] == if p % (rows as int) == p / (
                        rows as int) {
                            unit
                        } else {
                            nothing
                        },
                decreases rows - i,
            {
                proof {
                    lemma_flat_index(rows as nat, cols as nat, i as int, j as int);
                }
                data.push(if i == j { unit } else { nothing });
                i = i + 1;
            }
            assert(j * rows + rows == (j + 1) * rows) by (nonlinear_arith);
            j = j + 1;
        }
        assert(cols * rows == rows * cols) by (nonlinear_arith);
        proof {
            if exact::<T>() {
                assert(data@ =~= identity_grid::<T>(rows as nat, cols as nat).cells);
            }
        }
        Matrix::new(rows, cols, data)
    }
}

} // verus!
