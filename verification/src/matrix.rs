//! The matrix type: dense, column-major, of fixed shape.

use crate::error::MathMatrixError;
use crate::error::MathMatrixErrorKind;
use crate::grid::lemma_flat_index;
use crate::grid::Grid;
use crate::text::decimal;
use crate::text::to_decimal;
use vstd::prelude::*;
use vstd::std_specs::cmp::PartialEqSpec;
use vstd::std_specs::cmp::PartialEqSpecImpl;
use vstd::string::StringExecFns;

pub mod arithmetic;
pub mod construction;
pub mod decomposition;
pub mod inversion;
pub mod lines;

verus! {

/// The message of a construction with an empty dimension.
pub open spec fn empty_shape_message() -> Seq<char> {
    "Rows and columns must be lager than 0"@
}

/// The message of a construction whose data has `len` elements where the
/// shape asks for `size`.
pub open spec fn size_message(len: nat, size: nat) -> Seq<char> {
    "Size of data != rows * cols: "@ + decimal(len) + " != "@ + decimal(size)
}

/// The message of an access to `row` in a matrix of `rows` rows.
pub open spec fn row_message(row: nat, rows: nat) -> Seq<char> {
    "Row "@ + decimal(row) + " > "@ + decimal(rows)
}

/// The message of an access to `col` in a matrix of `cols` columns.
pub open spec fn column_message(col: nat, cols: nat) -> Seq<char> {
    "Column "@ + decimal(col) + " > "@ + decimal(cols)
}

/// A `rows` by `cols` matrix. The element in row `i` and column `j`, both
/// counted from zero, is stored at `j * rows + i`.
#[derive(Debug)]
pub struct Matrix<T> {
    rows: usize,
    cols: usize,
    data: Vec<T>,
}

impl<T> View for Matrix<T> {
    type V = Grid<T>;

    closed spec fn view(&self) -> Grid<T> {
        Grid { rows: self.rows as nat, cols: self.cols as nat, cells: self.data@ }
    }
}

pub(crate) fn labelled(label: &str, left: u128, middle: &str, right: u128) -> (s: String)
    ensures
        s@ == label@ + decimal(left as nat) + middle@ + decimal(right as nat),
{
    let mut s = String::from_str(label);
    let l = to_decimal(left);
    s.append(l.as_str());
    s.append(middle);
    let r = to_decimal(right);
    s.append(r.as_str());
    s
}

impl<T> Matrix<T> {
    #[verifier::type_invariant]
    spec fn well_formed(self) -> bool {
        &&& self.rows > 0
        &&& self.cols > 0
        &&& self.data.len() == self.rows * self.cols
    }

    /// Builds a matrix of the given shape from column-major data.
    ///
    /// Fails when a dimension is zero, or when the data does not hold one
    /// element per position.
    pub fn new(rows: usize, cols: usize, data: Vec<T>) -> (res: Result<Self, MathMatrixError>)
        ensures
            res is Ok <==> rows > 0 && cols > 0 && data.len() == rows * cols,
            res matches Ok(m) ==> m@ == (Grid {
                rows: rows as nat,
                cols: cols as nat,
                cells: data@,
            }),
            res matches Err(e) ==> e.kind() == MathMatrixErrorKind::FailedToInitialize,
            res matches Err(e) ==> e.message() == if rows == 0 || cols == 0 {
                empty_shape_message()
            } else {
                size_message(data.len() as nat, (rows * cols) as nat)
            },
    {
        assert(rows * cols <= u128::MAX) by (nonlinear_arith)
            requires
                rows <= 0xffff_ffff_ffff_ffff,
                cols <= 0xffff_ffff_ffff_ffff,
        ;
        let size: u128 = (rows as u128) * (cols as u128);
        if size == 0 {
            assert(rows == 0 || cols == 0) by (nonlinear_arith)
                requires
                    rows * cols == 0,
            ;
            return Err(
                MathMatrixError::new(
                    MathMatrixErrorKind::FailedToInitialize,
                    String::from_str("Rows and columns must be lager than 0"),
                ),
            );
        }
        assert(rows > 0 && cols > 0) by (nonlinear_arith)
            requires
                rows * cols != 0,
        ;
        if size == data.len() as u128 {
            Ok(Self { rows, cols, data })
        } else {
            Err(
                MathMatrixError::new(
                    MathMatrixErrorKind::FailedToInitialize,
                    labelled("Size of data != rows * cols: ", data.len() as u128, " != ", size),
                ),
            )
        }
    }

    /// The shape, as `(rows, cols)`.
    pub fn get_size(&self) -> (size: (usize, usize))
        ensures
            size.0 == self@.rows,
            size.1 == self@.cols,
            self@.wf(),
    {
        proof {
            use_type_invariant(self);
        }
        (self.rows, self.cols)
    }
}

pub(crate) fn out_of_rows(row: usize, rows: usize) -> (e: MathMatrixError)
    ensures
        e.kind() == MathMatrixErrorKind::OutOfBoundary,
        e.message() == row_message(row as nat, rows as nat),
{
    MathMatrixError::new(
        MathMatrixErrorKind::OutOfBoundary,
        labelled("Row ", row as u128, " > ", rows as u128),
    )
}

pub(crate) fn out_of_columns(col: usize, cols: usize) -> (e: MathMatrixError)
    ensures
        e.kind() == MathMatrixErrorKind::OutOfBoundary,
        e.message() == column_message(col as nat, cols as nat),
{
    MathMatrixError::new(
        MathMatrixErrorKind::OutOfBoundary,
        labelled("Column ", col as u128, " > ", cols as u128),
    )
}

impl<T: Copy> Matrix<T> {
    /// The element at a position of the matrix.
    pub(crate) fn cell(&self, i: usize, j: usize) -> (value: T)
        requires
            self@.has(i as int, j as int),
        ensures
            value == self@.at(i as int, j as int),
    {
        proof {
            use_type_invariant(self);
            lemma_flat_index(self.rows as nat, self.cols as nat, i as int, j as int);
        }
        self.data[j * self.rows + i]
    }

    /// Overwrites the element at a position of the matrix.
    pub(crate) fn put(&mut self, i: usize, j: usize, value: T)
        requires
            old(self)@.has(i as int, j as int),
        ensures
            final(self)@ == old(self)@.with(i as int, j as int, value),
    {
        proof {
            use_type_invariant(&*self);
            lemma_flat_index(self.rows as nat, self.cols as nat, i as int, j as int);
        }
        let k = j * self.rows + i;
        self.data[k] = value;
    }

    /// The element in row `row` and column `col`.
    ///
    /// Fails when the position lies outside the matrix.
    pub fn get_value(&self, row: usize, col: usize) -> (res: Result<T, MathMatrixError>)
        ensures
            res is Ok <==> self@.has(row as int, col as int),
            res matches Ok(value) ==> value == self@.at(row as int, col as int),
            res matches Err(e) ==> e.kind() == MathMatrixErrorKind::OutOfBoundary,
            res matches Err(e) ==> e.message() == if row >= self@.rows {
                row_message(row as nat, self@.rows)
            } else {
                column_message(col as nat, self@.cols)
            },
    {
        if row >= self.rows {
            return Err(out_of_rows(row, self.rows));
        }
        if col >= self.cols {
            return Err(out_of_columns(col, self.cols));
        }
        Ok(self.cell(row, col))
    }

    /// Stores `value` in row `row` and column `col`, leaving the shape and
    /// every other element as they were.
    ///
    /// Fails, and changes nothing, when the position lies outside the matrix.
    pub fn set_value(&mut self, row: usize, col: usize, value: T) -> (res: Result<
        (),
        MathMatrixError,
    >)
        ensures
            res is Ok <==> old(self)@.has(row as int, col as int),
            res is Ok ==> final(self)@ == old(self)@.with(row as int, col as int, value),
            res is Err ==> final(self)@ == old(self)@,
            res matches Err(e) ==> e.kind() == MathMatrixErrorKind::OutOfBoundary,
            res matches Err(e) ==> e.message() == if row >= old(self)@.rows {
                row_message(row as nat, old(self)@.rows)
            } else {
                column_message(col as nat, old(self)@.cols)
            },
    {
        if row >= self.rows {
            return Err(out_of_rows(row, self.rows));
        }
        if col >= self.cols {
            return Err(out_of_columns(col, self.cols));
        }
        self.put(row, col, value);
        Ok(())
    }

    /// A copy of the elements, in column-major order.
    pub fn get_data(&self) -> (data: Vec<T>)
        ensures
            data@ == self@.cells,
    {
        copy_of(&self.data)
    }
}

/// A copy of a vector.
pub(crate) fn copy_of<T: Copy>(source: &Vec<T>) -> (copy: Vec<T>)
    ensures
        copy@ == source@,
{
    let mut copy: Vec<T> = Vec::with_capacity(source.len());
    let mut k: usize = 0;
    while k < source.len()
        invariant
            k <= source.len(),
            copy@ == source@.take(k as int),
        decreases source.len() - k,
    {
        copy.push(source[k]);
        k = k + 1;
        assert(copy@ =~= source@.take(k as int));
    }
    assert(source@.take(k as int) =~= source@);
    copy
}

impl<T: Copy> Clone for Matrix<T> {
    fn clone(&self) -> (copy: Self)
        ensures
            copy@ == self@,
    {
        proof {
            use_type_invariant(self);
        }
        Matrix { rows: self.rows, cols: self.cols, data: copy_of(&self.data) }
    }
}

/// Whether two grids have one shape and, position by position, elements that
/// compare equal.
pub open spec fn alike<T: PartialEq>(a: Grid<T>, b: Grid<T>) -> bool {
    &&& a.same_shape(b)
    &&& forall|k: int| 0 <= k < a.cells.len() ==> (#[trigger] a.cells[k]).eq_spec(&b.cells[k])
}

impl<T: Copy + PartialEq> PartialEqSpecImpl for Matrix<T> {
    open spec fn obeys_eq_spec() -> bool {
        T::obeys_eq_spec()
    }

    open spec fn eq_spec(&self, other: &Matrix<T>) -> bool {
        alike(self@, other@)
    }
}

impl<T: Copy + PartialEq> PartialEq for Matrix<T> {
    /// Whether both matrices have one shape and equal elements throughout, by
    /// the element type's own equality.
    fn eq(&self, other: &Matrix<T>) -> (same: bool) {
        proof {
            use_type_invariant(self);
            use_type_invariant(other);
        }
        if self.rows != other.rows || self.cols != other.cols {
            return false;
        }
        let n = self.data.len();
        let mut k: usize = 0;
        while k < n
            invariant
                k <= n,
                n == self.data.len(),
                n == other.data.len(),
                self@.same_shape(other@),
                T::obeys_eq_spec() ==> forall|p: int|
                    0 <= p < k ==> (#[trigger] self@.cells[p]).eq_spec(&other@.cells[p]),
            decreases n - k,
        {
            if self.data[k] != other.data[k] {
                assert(T::obeys_eq_spec() ==> !self@.cells[k as int].eq_spec(
                    &other@.cells[k as int],
                ));
                return false;
            }
            k = k + 1;
        }
        true
    }
}

} // verus!
