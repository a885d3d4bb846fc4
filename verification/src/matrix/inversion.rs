//! Inversion from the LU factors, by forward and back substitution.

use core::ops::Neg;
use crate::error::MathMatrixError;
use crate::error::MathMatrixErrorKind;
use crate::grid::lemma_grid_eq;
use crate::grid::lemma_tabulate;
use crate::grid::lemma_with;
use crate::grid::Grid;
use crate::matrix::construction::identity_grid;
use crate::matrix::construction::lemma_identity;
use crate::matrix::decomposition::lu;
use crate::matrix::decomposition::lu_defined;
use crate::matrix::decomposition::not_square_message;
use crate::matrix::decomposition::zero_pivot_message;
use crate::matrix::Matrix;
use crate::scalar::exact;
use crate::scalar::is_zero;
use crate::scalar::one;
use crate::scalar::safe;
use crate::scalar::zero;
use crate::scalar::Scalar;
use vstd::prelude::*;
use vstd::std_specs::ops::AddSpec;
use vstd::std_specs::ops::DivSpec;
use vstd::std_specs::ops::MulSpec;
use vstd::std_specs::ops::NegSpec;
use vstd::string::StringExecFns;

verus! {

/// The message of an inversion whose upper factor has a zero on its diagonal.
pub open spec fn zero_diagonal_message() -> Seq<char> {
    "Found zero on the diagonal of U"@
}

/// The element `(r, c)` of the solution `Y` of `L * Y = I`, for a unit
/// lower-triangular `l`: one on the diagonal, zero above it, and below it
/// `-l[r, c]` plus the products `-l[r, i] * Y[i, c]` for `i` strictly between
/// `c` and `r`, added in increasing `i`.
pub open spec fn forward<T: Scalar>(l: Grid<T>, r: nat, c: nat) -> T
    decreases r, r + 1,
{
    if r == c {
        one::<T>()
    } else if r < c {
        zero::<T>()
    } else {
        forward_sum(l, r, c, r)
    }
}

/// The value that forward substitution has accumulated for `(r, c)` once the
/// rows below `k` have been taken in.
pub open spec fn forward_sum<T: Scalar>(l: Grid<T>, r: nat, c: nat, k: nat) -> T
    decreases r, k,
{
    if k <= c + 1 || k > r {
        l.at(r as int, c as int).neg_spec()
    } else {
        forward_sum(l, r, c, (k - 1) as nat).add_spec(
            l.at(r as int, k - 1).neg_spec().mul_spec(forward(l, (k - 1) as nat, c)),
        )
    }
}

/// The solution `Y` of `L * Y = I` by forward substitution.
pub open spec fn forward_grid<T: Scalar>(l: Grid<T>) -> Grid<T> {
    Grid::tabulate(l.rows, l.cols, |r: int, c: int| forward(l, r as nat, c as nat))
}

/// The element `(r, c)` of the solution `X` of `U * X = Y`: `y[r, c]` plus
/// the products `-u[r, i] * X[i, c]` for `i` above `r`, added in increasing
/// `i`, the whole divided by `u[r, r]`.
pub open spec fn backward<T: Scalar>(u: Grid<T>, y: Grid<T>, r: nat, c: nat) -> T
    decreases u.rows - r, u.rows + 1,
{
    if r >= u.rows {
        zero::<T>()
    } else {
        backward_sum(u, y, r, c, u.rows).div_spec(u.at(r as int, r as int))
    }
}

/// The value that back substitution has accumulated for `(r, c)` once the
/// rows below `k` have been taken in.
pub open spec fn backward_sum<T: Scalar>(u: Grid<T>, y: Grid<T>, r: nat, c: nat, k: nat) -> T
    decreases u.rows - r, k,
{
    if k <= r + 1 || k > u.rows {
        y.at(r as int, c as int)
    } else {
        backward_sum(u, y, r, c, (k - 1) as nat).add_spec(
            u.at(r as int, k - 1).neg_spec().mul_spec(backward(u, y, (k - 1) as nat, c)),
        )
    }
}

/// The solution `X` of `U * X = Y` by back substitution.
pub open spec fn backward_grid<T: Scalar>(u: Grid<T>, y: Grid<T>) -> Grid<T> {
    Grid::tabulate(u.rows, u.cols, |r: int, c: int| backward(u, y, r as nat, c as nat))
}

/// The forward solution has the shape of `l` and holds `forward(l, r, c)` at
/// `(r, c)`.
pub proof fn lemma_forward_grid<T: Scalar>(l: Grid<T>)
    requires
        l.wf(),
    ensures
        forward_grid(l).wf(),
        forward_grid(l).same_shape(l),
        forall|r: int, c: int|
            l.has(r, c) ==> #[trigger] forward_grid(l).at(r, c) == forward(l, r as nat, c as nat),
{
    lemma_tabulate(forward_grid(l), |r: int, c: int| forward(l, r as nat, c as nat));
}

/// The backward solution has the shape of `u` and holds `backward(u, y, r, c)`
/// at `(r, c)`.
pub proof fn lemma_backward_grid<T: Scalar>(u: Grid<T>, y: Grid<T>)
    requires
        u.wf(),
    ensures
        backward_grid(u, y).wf(),
        backward_grid(u, y).same_shape(u),
        forall|r: int, c: int|
            u.has(r, c) ==> #[trigger] backward_grid(u, y).at(r, c) == backward(
                u,
                y,
                r as nat,
                c as nat,
            ),
{
    lemma_tabulate(backward_grid(u, y), |r: int, c: int| backward(u, y, r as nat, c as nat));
}

/// Whether each negation, multiplication and addition of forward
/// substitution on `l` is defined.
pub open spec fn forward_defined<T: Scalar>(l: Grid<T>) -> bool {
    &&& forall|r: int, c: int| 0 <= c < r < l.rows ==> (#[trigger] l.at(r, c)).neg_req()
    &&& forall|r: nat, c: nat, k: nat|
        c < k < r < l.rows ==> {
            &&& l.at(r as int, k as int).neg_spec().mul_req(forward(l, k, c))
            &&& (#[trigger] forward_sum(l, r, c, k)).add_req(
                l.at(r as int, k as int).neg_spec().mul_spec(forward(l, k, c)),
            )
        }
}

/// Whether each negation, multiplication, addition and division of back
/// substitution on `u` and `y` is defined.
pub open spec fn backward_defined<T: Scalar>(u: Grid<T>, y: Grid<T>) -> bool {
    &&& forall|r: int, k: int| 0 <= r < k < u.rows ==> (#[trigger] u.at(r, k)).neg_req()
    &&& forall|r: nat, c: nat, k: nat|
        r < k < u.rows && c < u.cols ==> {
            &&& u.at(r as int, k as int).neg_spec().mul_req(backward(u, y, k, c))
            &&& (#[trigger] backward_sum(u, y, r, c, k)).add_req(
                u.at(r as int, k as int).neg_spec().mul_spec(backward(u, y, k, c)),
            )
        }
    &&& forall|r: nat, c: nat|
        r < u.rows && c < u.cols ==> (#[trigger] backward_sum(u, y, r, c, u.rows)).div_req(
            u.at(r as int, r as int),
        )
}

/// Whether each operation of the inversion of the square grid `a` is defined:
/// those of the elimination and, where it gives factors without a zero on the
/// diagonal of the upper one, those of the two substitutions.
pub open spec fn inverse_defined<T: Scalar>(a: Grid<T>) -> bool {
    &&& lu_defined(a)
    &&& match lu(a) {
        None => true,
        Some((l, u)) => !zero_on_diagonal(u) ==> forward_defined(l) && backward_defined(
            u,
            forward_grid(l),
        ),
    }
}

/// Whether some element on the diagonal of `u` is zero.
pub open spec fn zero_on_diagonal<T: Scalar>(u: Grid<T>) -> bool {
    exists|r: int| 0 <= r < u.rows && is_zero(#[trigger] u.at(r, r))
}

/// The inverse of the square grid `a` as elimination and the two
/// substitutions compute it, or nothing where elimination meets a zero pivot
/// or leaves a zero on the diagonal of the upper factor.
pub open spec fn inverse<T: Scalar>(a: Grid<T>) -> Option<Grid<T>> {
    match lu(a) {
        None => None,
        Some((l, u)) => if zero_on_diagonal(u) {
            None
        } else {
            Some(backward_grid(u, forward_grid(l)))
        },
    }
}

impl<T: Scalar> Matrix<T> {
    /// Whether some element on the diagonal of this square matrix is zero.
    fn has_zero_on_diagonal(&self) -> (found: bool)
        requires
            self@.square(),
        ensures
            exact::<T>() ==> found == zero_on_diagonal(self@),
    {
        proof {
            use_type_invariant(self);
        }
        let nothing = T::from(0i8);
        let mut r: usize = 0;
        while r < self.rows
            invariant
                self@.wf(),
                self@.square(),
                r <= self@.rows,
                exact::<T>() ==> nothing == zero::<T>(),
                exact::<T>() ==> forall|p: int| 0 <= p < r ==> !is_zero(#[trigger] self@.at(p, p)),
            decreases self.rows - r,
        {
            if self.cell(r, r) == nothing {
                return true;
            }
            r = r + 1;
        }
        false
    }

    /// The solution `Y` of `L * Y = I` for this matrix as `L`, by forward
    /// substitution from the identity `start`, column by column and down each
    /// column.
    fn forward_substituted(&self, start: Matrix<T>) -> (y: Matrix<T>)
        requires
            safe::<T>(forward_defined(self@)),
            self@.square(),
            start@.same_shape(self@),
            exact::<T>() ==> start@ == identity_grid::<T>(self@.rows, self@.cols),
        ensures
            y@.wf(),
            y@.same_shape(self@),
            exact::<T>() ==> y@ == forward_grid(self@),
    {
        proof {
            use_type_invariant(self);
            use_type_invariant(&start);
            lemma_identity::<T>(self@.rows, self@.cols);
        }
        let n = self.rows;
        let mut y = start;
        let mut col: usize = 0;
        while col < n
            invariant
                safe::<T>(forward_defined(self@)),
                n == self@.rows,
                self@.wf(),
                self@.square(),
                y@.wf(),
                y@.same_shape(self@),
                col <= n,
                exact::<T>() ==> forall|r: int, c: int|
                    y@.has(r, c) && (c < col || r <= c) ==> #[trigger] y@.at(r, c) == forward(
                        self@,
                        r as nat,
                        c as nat,
                    ),
            decreases n - col,
        {
            let mut row: usize = col + 1;
            while row < n
                invariant
                    safe::<T>(forward_defined(self@)),
                    n == self@.rows,
                    self@.wf(),
                    self@.square(),
                    y@.wf(),
                    y@.same_shape(self@),
                    col < n,
                    col < row <= n,
                    exact::<T>() ==> forall|r: int, c: int|
                        y@.has(r, c) && (c < col || r <= c || (c == col && r < row))
                            ==> #[trigger] y@.at(r, c) == forward(self@, r as nat, c as nat),
                decreases n - row,
            {
                let mut elem = self.cell(row, col).neg();
                let mut i: usize = col + 1;
                while i < row
                    invariant
                        safe::<T>(forward_defined(self@)),
                        n == self@.rows,
                        self@.wf(),
                        self@.square(),
                        y@.wf(),
                        y@.same_shape(self@),
                        col < row < n,
                        col < i <= row,
                        exact::<T>() ==> forall|r: int, c: int|
                            y@.has(r, c) && (c < col || r <= c || (c == col && r < row))
                                ==> #[trigger] y@.at(r, c) == forward(self@, r as nat, c as nat),
                        exact::<T>() ==> elem == forward_sum(
                            self@,
                            row as nat,
                            col as nat,
                            i as nat,
                        ),
                    decreases row - i,
                {
                    elem = elem + self.cell(row, i).neg() * y.cell(i, col);
                    i = i + 1;
                }
                proof {
                    lemma_with(y@, row as int, col as int, elem);
                }
                y.put(row, col, elem);
                row = row + 1;
            }
            col = col + 1;
        }
        proof {
            if exact::<T>() {
                lemma_forward_grid(self@);
                lemma_grid_eq(y@, forward_grid(self@));
            }
        }
        y
    }

    /// The solution `X` of `U * X = Y` for this matrix as `U`, by back
    /// substitution, column by column and up each column. Every element of
    /// `start` is overwritten.
    fn back_substituted(&self, y: &Matrix<T>, start: Matrix<T>) -> (x: Matrix<T>)
        requires
            safe::<T>(backward_defined(self@, y@)),
            self@.square(),
            y@.same_shape(self@),
            start@.same_shape(self@),
        ensures
            x@.wf(),
            x@.same_shape(self@),
            exact::<T>() ==> x@ == backward_grid(self@, y@),
    {
        proof {
            use_type_invariant(self);
            use_type_invariant(y);
            use_type_invariant(&start);
        }
        let n = self.rows;
        let mut x = start;
        let mut col: usize = 0;
        while col < n
            invariant
                safe::<T>(backward_defined(self@, y@)),
                n == self@.rows,
                self@.wf(),
                self@.square(),
                y@.wf(),
                y@.same_shape(self@),
                x@.wf(),
                x@.same_shape(self@),
                col <= n,
                exact::<T>() ==> forall|r: int, c: int|
                    x@.has(r, c) && c < col ==> #[trigger] x@.at(r, c) == backward(
                        self@,
                        y@,
                        r as nat,
                        c as nat,
                    ),
            decreases n - col,
        {
            let mut row: usize = n;
            while row > 0
                invariant
                    safe::<T>(backward_defined(self@, y@)),
                    n == self@.rows,
                    self@.wf(),
                    self@.square(),
                    y@.wf(),
                    y@.same_shape(self@),
                    x@.wf(),
                    x@.same_shape(self@),
                    col < n,
                    row <= n,
                    exact::<T>() ==> forall|r: int, c: int|
                        x@.has(r, c) && (c < col || (c == col && r >= row)) ==> #[trigger] x@.at(
                            r,
                            c,
                        ) == backward(self@, y@, r as nat, c as nat),
                decreases row,
            {
                row = row - 1;
                let mut elem = y.cell(row, col);
                let divider = self.cell(row, row);
                let mut i: usize = row + 1;
                while i < n
                    invariant
                        safe::<T>(backward_defined(self@, y@)),
                        n == self@.rows,
                        self@.wf(),
                        self@.square(),
                        y@.wf(),
                        y@.same_shape(self@),
                        x@.wf(),
                        x@.same_shape(self@),
                        col < n,
                        row < n,
                        row < i <= n,
                        exact::<T>() ==> forall|r: int, c: int|
                            x@.has(r, c) && (c < col || (c == col && r > row))
                                ==> #[trigger] x@.at(r, c) == backward(
                                self@,
                                y@,
                                r as nat,
                                c as nat,
                            ),
                        exact::<T>() ==> elem == backward_sum(
                            self@,
                            y@,
                            row as nat,
                            col as nat,
                            i as nat,
                        ),
                    decreases n - i,
                {
                    elem = elem + self.cell(row, i).neg() * x.cell(i, col);
                    i = i + 1;
                }
                let value = elem / divider;
                proof {
                    lemma_with(x@, row as int, col as int, value);
                }
                x.put(row, col, value);
            }
            col = col + 1;
        }
        proof {
            if exact::<T>() {
                lemma_backward_grid(self@, y@);
                lemma_grid_eq(x@, backward_grid(self@, y@));
            }
        }
        x
    }

    /// The inverse: the matrix is decomposed into `L` and `U`, `L * Y = I` is
    /// solved by forward substitution and `U * X = Y` by back substitution. No
    /// operation on the elements may be able to fail.
    ///
    /// Fails as the decomposition fails, and when the diagonal of `U` holds a
    /// zero, by which back substitution would divide.
    pub fn invert(&self) -> (res: Result<Matrix<T>, MathMatrixError>)
        requires
            self@.square() ==> safe::<T>(inverse_defined(self@)),
        ensures
            !self@.square() ==> (res matches Err(e) && e.kind()
                == MathMatrixErrorKind::OperationNotPermitted && e.message()
                == not_square_message()),
            self@.square() ==> (res matches Err(e) ==> e.kind()
                == MathMatrixErrorKind::FailedToDecompose && (e.message() == zero_pivot_message()
                || e.message() == zero_diagonal_message())),
            self@.square() && exact::<T>() ==> (res is Err <==> inverse(self@) is None),
            self@.square() && exact::<T>() ==> (res matches Err(e) ==> e.message() == if lu(
                self@,
            ) is None {
                zero_pivot_message()
            } else {
                zero_diagonal_message()
            }),
            res matches Ok(x) ==> x@.wf() && x@.same_shape(self@),
            res matches Ok(x) ==> exact::<T>() ==> inverse(self@) == Some(x@),
    {
        let (l, u) = match self.decompose() {
            Ok(factors) => factors,
            Err(e) => {
                return Err(e);
            },
        };
        if u.has_zero_on_diagonal() {
            return Err(
                MathMatrixError::new(
                    MathMatrixErrorKind::FailedToDecompose,
                    String::from_str("Found zero on the diagonal of U"),
                ),
            );
        }
        proof {
            use_type_invariant(self);
        }
        let size = self.rows;
        let y = match Matrix::identity(size, size) {
            Ok(start) => l.forward_substituted(start),
            Err(e) => {
                return Err(e);
            },
        };
        let x = match Matrix::zeros(size, size) {
            Ok(start) => u.back_substituted(&y, start),
            Err(e) => {
                return Err(e);
            },
        };
        Ok(x)
    }
}

} // verus!
