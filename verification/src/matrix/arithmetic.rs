//! Sums, differences, scalar and matrix products, and transposition.

use core::ops::Add;
use core::ops::Sub;
use crate::error::MathMatrixError;
use crate::error::MathMatrixErrorKind;
use crate::grid::lemma_flat_index;
use crate::grid::lemma_tabulate;
use crate::grid::Grid;
use crate::matrix::Matrix;
use crate::scalar::exact;
use crate::scalar::safe;
use crate::scalar::zero;
use crate::scalar::Scalar;
use vstd::prelude::*;
use vstd::std_specs::ops::AddSpec;
use vstd::std_specs::ops::AddSpecImpl;
use vstd::std_specs::ops::MulSpec;
use vstd::std_specs::ops::SubSpec;
use vstd::std_specs::ops::SubSpecImpl;
use vstd::string::StringExecFns;

verus! {

/// The message of a sum or difference of matrices of different shapes.
pub open spec fn shape_message() -> Seq<char> {
    "Operation not allowed between matrices with different sizes"@
}

/// The message of a product whose left factor has not as many columns as the
/// right factor has rows.
pub open spec fn inner_message() -> Seq<char> {
    "Multiplication allowed for NxM * MxO"@
}

/// The elementwise sum of two grids of one shape.
pub open spec fn sum<T: Scalar>(a: Grid<T>, b: Grid<T>) -> Grid<T> {
    Grid {
        rows: a.rows,
        cols: a.cols,
        cells: Seq::new(a.cells.len(), |k: int| a.cells[k].add_spec(b.cells[k])),
    }
}

/// Whether each addition of the elementwise sum is defined.
pub open spec fn sum_defined<T: Scalar>(a: Grid<T>, b: Grid<T>) -> bool {
    forall|k: int| 0 <= k < a.cells.len() ==> (#[trigger] a.cells[k]).add_req(b.cells[k])
}

/// The elementwise difference of two grids of one shape.
pub open spec fn difference<T: Scalar>(a: Grid<T>, b: Grid<T>) -> Grid<T> {
    Grid {
        rows: a.rows,
        cols: a.cols,
        cells: Seq::new(a.cells.len(), |k: int| a.cells[k].sub_spec(b.cells[k])),
    }
}

/// Whether each subtraction of the elementwise difference is defined.
pub open spec fn difference_defined<T: Scalar>(a: Grid<T>, b: Grid<T>) -> bool {
    forall|k: int| 0 <= k < a.cells.len() ==> (#[trigger] a.cells[k]).sub_req(b.cells[k])
}

/// A grid with every cell multiplied by `factor`, the cell on the left.
pub open spec fn scaled<T: Scalar>(a: Grid<T>, factor: T) -> Grid<T> {
    Grid {
        rows: a.rows,
        cols: a.cols,
        cells: Seq::new(a.cells.len(), |k: int| a.cells[k].mul_spec(factor)),
    }
}

/// Whether each multiplication of the scaling is defined.
pub open spec fn scaled_defined<T: Scalar>(a: Grid<T>, factor: T) -> bool {
    forall|k: int| 0 <= k < a.cells.len() ==> (#[trigger] a.cells[k]).mul_req(factor)
}

/// The sum, accumulated from zero in increasing `k`, of the products
/// `a[i, k] * b[k, j]` for `k` below `n`.
pub open spec fn dot<T: Scalar>(a: Grid<T>, b: Grid<T>, i: int, j: int, n: nat) -> T
    decreases n,
{
    if n == 0 {
        zero::<T>()
    } else {
        dot(a, b, i, j, (n - 1) as nat).add_spec(a.at(i, n - 1).mul_spec(b.at(n - 1, j)))
    }
}

/// The product of an `n` by `m` grid and an `m` by `o` grid.
pub open spec fn product<T: Scalar>(a: Grid<T>, b: Grid<T>) -> Grid<T> {
    Grid::tabulate(a.rows, b.cols, |i: int, j: int| dot(a, b, i, j, a.cols))
}

/// The product of two grids that meet is well formed, has the rows of the
/// left factor and the columns of the right one, and holds at `(i, j)` the sum
/// of the products along row `i` of the left and column `j` of the right.
pub proof fn lemma_product<T: Scalar>(a: Grid<T>, b: Grid<T>)
    requires
        a.wf(),
        b.wf(),
        a.cols == b.rows,
    ensures
        product(a, b).wf(),
        product(a, b).rows == a.rows,
        product(a, b).cols == b.cols,
        forall|i: int, j: int|
            product(a, b).has(i, j) ==> #[trigger] product(a, b).at(i, j) == dot(
                a,
                b,
                i,
                j,
                a.cols,
            ),
{
    lemma_tabulate(product(a, b), |i: int, j: int| dot(a, b, i, j, a.cols));
}

/// Whether each multiplication and each addition of the product is defined.
pub open spec fn product_defined<T: Scalar>(a: Grid<T>, b: Grid<T>) -> bool {
    forall|i: int, j: int, k: nat|
        0 <= i < a.rows && 0 <= j < b.cols && k < a.cols ==> {
            &&& a.at(i, k as int).mul_req(b.at(k as int, j))
            &&& (#[trigger] dot(a, b, i, j, k)).add_req(
                a.at(i, k as int).mul_spec(b.at(k as int, j)),
            )
        }
}

/// The grid whose cell `(i, j)` is cell `(j, i)` of `a`.
pub open spec fn transpose<T>(a: Grid<T>) -> Grid<T> {
    Grid::tabulate(a.cols, a.rows, |i: int, j: int| a.at(j, i))
}

fn shape_mismatch() -> (e: MathMatrixError)
    ensures
        e.kind() == MathMatrixErrorKind::SizeMismatch,
        e.message() == shape_message(),
{
    MathMatrixError::new(
        MathMatrixErrorKind::SizeMismatch,
        String::from_str("Operation not allowed between matrices with different sizes"),
    )
}

/// What `+` asks of its operands. Its result may hold an error with its
/// message, so what it returns is stated on `add` itself and not as a value
/// here.
impl<T: Scalar> AddSpecImpl for Matrix<T> {
    open spec fn obeys_add_spec() -> bool {
        false
    }

    open spec fn add_req(self, other: Matrix<T>) -> bool {
        self@.same_shape(other@) ==> sum_defined(self@, other@)
    }

    open spec fn add_spec(self, other: Matrix<T>) -> Result<Matrix<T>, MathMatrixError> {
        arbitrary()
    }
}

impl<T: Scalar> Add for Matrix<T> {
    type Output = Result<Matrix<T>, MathMatrixError>;

    /// The elementwise sum. No addition of two elements in one place may be
    /// able to fail.
    ///
    /// Fails when the shapes differ.
    fn add(self, other: Matrix<T>) -> (res: Result<Matrix<T>, MathMatrixError>)
        ensures
            res is Ok <==> self@.same_shape(other@),
            res matches Ok(m) ==> m@.wf() && m@.same_shape(self@),
            res matches Ok(m) ==> exact::<T>() ==> m@ == sum(self@, other@),
            res matches Err(e) ==> e.kind() == MathMatrixErrorKind::SizeMismatch && e.message()
                == shape_message(),
    {
        proof {
            use_type_invariant(&self);
            use_type_invariant(&other);
        }
        if self.rows != other.rows || self.cols != other.cols {
            return Err(shape_mismatch());
        }
        let n = self.data.len();
        let mut data: Vec<T> = Vec::with_capacity(n);
        let mut k: usize = 0;
        while k < n
            invariant
                sum_defined(self@, other@),
                k <= n,
                n == self.data.len(),
                n == other.data.len(),
                data.len() == k,
                exact::<T>() ==> forall|p: int|
                    0 <= p < k ==> data[p] == self.data[p].add_spec(other.data[p]),
            decreases n - k,
        {
            assert(self@.cells[k as int].add_req(other@.cells[k as int]));
            data.push(self.data[k] + other.data[k]);
            k = k + 1;
        }
        let m = Matrix { rows: self.rows, cols: self.cols, data };
        proof {
            if exact::<T>() {
                assert(m@.cells =~= sum(self@, other@).cells);
            }
        }
        Ok(m)
    }
}

/// What `-` asks of its operands. Its result may hold an error with its
/// message, so what it returns is stated on `sub` itself and not as a value
/// here.
impl<T: Scalar> SubSpecImpl for Matrix<T> {
    open spec fn obeys_sub_spec() -> bool {
        false
    }

    open spec fn sub_req(self, other: Matrix<T>) -> bool {
        self@.same_shape(other@) ==> difference_defined(self@, other@)
    }

    open spec fn sub_spec(self, other: Matrix<T>) -> Result<Matrix<T>, MathMatrixError> {
        arbitrary()
    }
}

impl<T: Scalar> Sub for Matrix<T> {
    type Output = Result<Matrix<T>, MathMatrixError>;

    /// The elementwise difference. No subtraction of two elements in one
    /// place may be able to fail.
    ///
    /// Fails when the shapes differ.
    fn sub(self, other: Matrix<T>) -> (res: Result<Matrix<T>, MathMatrixError>)
        ensures
            res is Ok <==> self@.same_shape(other@),
            res matches Ok(m) ==> m@.wf() && m@.same_shape(self@),
            res matches Ok(m) ==> exact::<T>() ==> m@ == difference(self@, other@),
            res matches Err(e) ==> e.kind() == MathMatrixErrorKind::SizeMismatch && e.message()
                == shape_message(),
    {
        proof {
            use_type_invariant(&self);
            use_type_invariant(&other);
        }
        if self.rows != other.rows || self.cols != other.cols {
            return Err(shape_mismatch());
        }
        let n = self.data.len();
        let mut data: Vec<T> = Vec::with_capacity(n);
        let mut k: usize = 0;
        while k < n
            invariant
                difference_defined(self@, other@),
                k <= n,
                n == self.data.len(),
                n == other.data.len(),
                data.len() == k,
                exact::<T>() ==> forall|p: int|
                    0 <= p < k ==> data[p] == self.data[p].sub_spec(other.data[p]),
            decreases n - k,
        {
            assert(self@.cells[k as int].sub_req(other@.cells[k as int]));
            data.push(self.data[k] - other.data[k]);
            k = k + 1;
        }
        let m = Matrix { rows: self.rows, cols: self.cols, data };
        proof {
            if exact::<T>() {
                assert(m@.cells =~= difference(self@, other@).cells);
            }
        }
        Ok(m)
    }
}

impl<T: Scalar> Matrix<T> {
    /// The matrix with every element multiplied by `scalar`. No such
    /// multiplication may be able to fail.
    pub fn multiplied_by_scalar(&self, scalar: T) -> (m: Self)
        requires
            scaled_defined(self@, scalar),
        ensures
            m@.wf(),
            m@.same_shape(self@),
            exact::<T>() ==> m@ == scaled(self@, scalar),
    {
        proof {
            use_type_invariant(self);
        }
        let n = self.data.len();
        let mut data: Vec<T> = Vec::with_capacity(n);
        let mut k: usize = 0;
        while k < n
            invariant
                scaled_defined(self@, scalar),
                k <= n,
                n == self.data.len(),
                data.len() == k,
                exact::<T>() ==> forall|p: int|
                    0 <= p < k ==> data[p] == self.data[p].mul_spec(scalar),
            decreases n - k,
        {
            assert(self@.cells[k as int].mul_req(scalar));
            data.push(self.data[k] * scalar);
            k = k + 1;
        }
        let m = Matrix { rows: self.rows, cols: self.cols, data };
        proof {
            if exact::<T>() {
                assert(m@.cells =~= scaled(self@, scalar).cells);
            }
        }
        m
    }

    /// The product of this matrix, on the left, and `other`: element `(i, j)`
    /// is the sum, accumulated from zero in increasing `k`, of the products of
    /// element `(i, k)` of this matrix and element `(k, j)` of `other`. No
    /// operation on the elements may be able to fail.
    ///
    /// Fails when this matrix has not as many columns as `other` has rows.
    pub fn multiplied_by_matrix(&self, other: &Matrix<T>) -> (res: Result<Self, MathMatrixError>)
        requires
            self@.cols == other@.rows ==> safe::<T>(product_defined(self@, other@)),
        ensures
            res is Ok <==> self@.cols == other@.rows,
            res matches Ok(m) ==> m@.wf() && m@.rows == self@.rows && m@.cols == other@.cols,
            res matches Ok(m) ==> exact::<T>() ==> m@ == product(self@, other@),
            res matches Err(e) ==> e.kind() == MathMatrixErrorKind::SizeMismatch && e.message()
                == inner_message(),
    {
        proof {
            use_type_invariant(self);
            use_type_invariant(other);
        }
        if self.cols != other.rows {
            return Err(
                MathMatrixError::new(
                    MathMatrixErrorKind::SizeMismatch,
                    String::from_str("Multiplication allowed for NxM * MxO"),
                ),
            );
        }
        let rows = self.rows;
        let cols = other.cols;
        let inner = self.cols;
        let mut data: Vec<T> = Vec::new();
        let mut j: usize = 0;
        while j < cols
            invariant
                safe::<T>(product_defined(self@, other@)),
                rows == self@.rows,
                cols == other@.cols,
                inner == self@.cols,
                inner == other@.rows,
                self@.wf(),
                other@.wf(),
                j <= cols,
                data.len() == j * rows,
                exact::<T>() ==> forall|p: int|
                    0 <= p < data.len() ==> data[p] == dot(
                        self@,
                        other@,
                        p % (rows as int),
                        p / (rows as int),
                        inner as nat,
                    ),
            decreases cols - j,
        {
            let mut i: usize = 0;
            while i < rows
                invariant
                    safe::<T>(product_defined(self@, other@)),
                    rows == self@.rows,
                    cols == other@.cols,
                    inner == self@.cols,
                    inner == other@.rows,
                    self@.wf(),
                    other@.wf(),
                    j < cols,
                    i <= rows,
                    data.len() == j * rows + i,
                    exact::<T>() ==> forall|p: int|
                        0 <= p < data.len() ==> data[p] == dot(
                            self@,
                            other@,
                            p % (rows as int),
                            p / (rows as int),
                            inner as nat,
                        ),
                decreases rows - i,
            {
                let mut sum_so_far = T::from(0i8);
                let mut k: usize = 0;
                while k < inner
                    invariant
                        safe::<T>(product_defined(self@, other@)),
                        rows == self@.rows,
                        cols == other@.cols,
                        inner == self@.cols,
                        inner == other@.rows,
                        i < rows,
                        j < cols,
                        k <= inner,
                        exact::<T>() ==> sum_so_far == dot(
                            self@,
                            other@,
                            i as int,
                            j as int,
                            k as nat,
                        ),
                    decreases inner - k,
                {
                    sum_so_far = sum_so_far + self.cell(i, k) * other.cell(k, j);
                    k = k + 1;
                }
                proof {
                    lemma_flat_index(rows as nat, cols as nat, i as int, j as int);
                }
                data.push(sum_so_far);
                i = i + 1;
            }
            assert(j * rows + rows == (j + 1) * rows) by (nonlinear_arith);
            j = j + 1;
        }
        assert(cols * rows == rows * cols) by (nonlinear_arith);
        let m = Matrix { rows, cols, data };
        proof {
            if exact::<T>() {
                assert(m@.cells =~= product(self@, other@).cells);
            }
        }
        Ok(m)
    }
}

impl<T: Copy> Matrix<T> {
    /// The matrix whose element `(j, i)` is element `(i, j)` of this one.
    pub fn transposed(&self) -> (m: Self)
        ensures
            m@ == transpose(self@),
    {
        proof {
            use_type_invariant(self);
        }
        let rows = self.cols;
        let cols = self.rows;
        let mut data: Vec<T> = Vec::with_capacity(self.data.len());
        let mut j: usize = 0;
        while j < cols
            invariant
                rows == self@.cols,
                cols == self@.rows,
                self@.wf(),
                j <= cols,
                data.len() == j * rows,
                forall|p: int|
                    0 <= p < data.len() ==> data[p] == self@.at(
                        p / (rows as int),
                        p % (rows as int),
                    ),
            decreases cols - j,
        {
            let mut i: usize = 0;
            while i < rows
                invariant
                    rows == self@.cols,
                    cols == self@.rows,
                    self@.wf(),
                    j < cols,
                    i <= rows,
                    data.len() == j * rows + i,
                    forall|p: int|
                        0 <= p < data.len() ==> data[p] == self@.at(
                            p / (rows as int),
                            p % (rows as int),
                        ),
                decreases rows - i,
            {
                proof {
                    lemma_flat_index(rows as nat, cols as nat, i as int, j as int);
                }
                data.push(self.cell(j, i));
                i = i + 1;
            }
            assert(j * rows + rows == (j + 1) * rows) by (nonlinear_arith);
            j = j + 1;
        }
        assert(cols * rows == rows * cols) by (nonlinear_arith);
        let m = Matrix { rows, cols, data };
        assert(m@.cells =~= transpose(self@).cells);
        m
    }
}

} // verus!
