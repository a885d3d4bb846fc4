//! Whole rows and columns: copies of them, and overwriting them.

use crate::error::MathMatrixError;
use crate::error::MathMatrixErrorKind;
use crate::grid::lemma_flat_index;
use crate::grid::lemma_grid_eq;
use crate::grid::lemma_tabulate;
use crate::grid::lemma_with;
use crate::grid::Grid;
use crate::matrix::column_message;
use crate::matrix::labelled;
use crate::matrix::out_of_columns;
use crate::matrix::out_of_rows;
use crate::matrix::row_message;
use crate::matrix::Matrix;
use crate::text::decimal;
use vstd::prelude::*;

verus! {

/// The message of a row of `len` values offered to a matrix of `cols` columns.
pub open spec fn row_size_message(len: nat, cols: nat) -> Seq<char> {
    "Size of row != cols: "@ + decimal(len) + " != "@ + decimal(cols)
}

/// The message of a column of `len` values offered to a matrix of `rows` rows.
pub open spec fn column_size_message(len: nat, rows: nat) -> Seq<char> {
    "Size of column != rows: "@ + decimal(len) + " != "@ + decimal(rows)
}

/// Row `i` of a grid, as a grid of one row.
pub open spec fn row_grid<T>(g: Grid<T>, i: int) -> Grid<T> {
    Grid::tabulate(1, g.cols, |r: int, c: int| g.at(i, c))
}

/// Column `j` of a grid, as a grid of one column.
pub open spec fn column_grid<T>(g: Grid<T>, j: int) -> Grid<T> {
    Grid::tabulate(g.rows, 1, |r: int, c: int| g.at(r, j))
}

/// A grid with row `i` replaced by `values`.
pub open spec fn with_row<T>(g: Grid<T>, i: int, values: Seq<T>) -> Grid<T> {
    Grid::tabulate(
        g.rows,
        g.cols,
        |r: int, c: int|
            if r == i {
                values[c]
            } else {
                g.at(r, c)
            },
    )
}

/// A grid with column `j` replaced by `values`.
pub open spec fn with_column<T>(g: Grid<T>, j: int, values: Seq<T>) -> Grid<T> {
    Grid::tabulate(
        g.rows,
        g.cols,
        |r: int, c: int|
            if c == j {
                values[r]
            } else {
                g.at(r, c)
            },
    )
}

fn row_size_mismatch(len: usize, cols: usize) -> (e: MathMatrixError)
    ensures
        e.kind() == MathMatrixErrorKind::SizeMismatch,
        e.message() == row_size_message(len as nat, cols as nat),
{
    MathMatrixError::new(
        MathMatrixErrorKind::SizeMismatch,
        labelled("Size of row != cols: ", len as u128, " != ", cols as u128),
    )
}

fn column_size_mismatch(len: usize, rows: usize) -> (e: MathMatrixError)
    ensures
        e.kind() == MathMatrixErrorKind::SizeMismatch,
        e.message() == column_size_message(len as nat, rows as nat),
{
    MathMatrixError::new(
        MathMatrixErrorKind::SizeMismatch,
        labelled("Size of column != rows: ", len as u128, " != ", rows as u128),
    )
}

impl<T: Copy> Matrix<T> {
    /// A copy of row `i`, as a matrix of one row.
    ///
    /// Fails when the matrix has no such row.
    pub fn get_row(&self, i: usize) -> (res: Result<Self, MathMatrixError>)
        ensures
            res is Ok <==> i < self@.rows,
            res matches Ok(m) ==> m@ == row_grid(self@, i as int),
            res matches Err(e) ==> e.kind() == MathMatrixErrorKind::OutOfBoundary && e.message()
                == row_message(i as nat, self@.rows),
    {
        proof {
            use_type_invariant(self);
        }
        if i >= self.rows {
            return Err(out_of_rows(i, self.rows));
        }
        let mut data: Vec<T> = Vec::with_capacity(self.cols);
        let mut c: usize = 0;
        while c < self.cols
            invariant
                c <= self@.cols,
                i < self@.rows,
                data.len() == c,
                forall|p: int| 0 <= p < c ==> data[p] == self@.at(i as int, p),
            decreases self.cols - c,
        {
            data.push(self.cell(i, c));
            c = c + 1;
        }
        let m = Matrix { rows: 1, cols: self.cols, data };
        assert(m@.cells =~= row_grid(self@, i as int).cells);
        Ok(m)
    }

    /// A copy of column `j`, as a matrix of one column.
    ///
    /// Fails when the matrix has no such column.
    pub fn get_column(&self, j: usize) -> (res: Result<Self, MathMatrixError>)
        ensures
            res is Ok <==> j < self@.cols,
            res matches Ok(m) ==> m@ == column_grid(self@, j as int),
            res matches Err(e) ==> e.kind() == MathMatrixErrorKind::OutOfBoundary && e.message()
                == column_message(j as nat, self@.cols),
    {
        proof {
            use_type_invariant(self);
        }
        if j >= self.cols {
            return Err(out_of_columns(j, self.cols));
        }
        let mut data: Vec<T> = Vec::with_capacity(self.rows);
        let mut r: usize = 0;
        while r < self.rows
            invariant
                r <= self@.rows,
                j < self@.cols,
                data.len() == r,
                forall|p: int| 0 <= p < r ==> data[p] == self@.at(p, j as int),
            decreases self.rows - r,
        {
            data.push(self.cell(r, j));
            r = r + 1;
        }
        let m = Matrix { rows: self.rows, cols: 1, data };
        proof {
            assert forall|p: int| 0 <= p < self@.rows implies m@.cells[p] == column_grid(
                self@,
                j as int,
            ).cells[p] by {
                lemma_flat_index(self@.rows, 1, p, 0);
            }
            assert(m@.cells =~= column_grid(self@, j as int).cells);
        }
        Ok(m)
    }

    /// Overwrites row `i` with `values`, leaving the shape and every other row
    /// as they were.
    ///
    /// Fails, and changes nothing, when `values` does not hold one element per
    /// column, or when the matrix has no such row.
    pub fn set_row(&mut self, i: usize, values: Vec<T>) -> (res: Result<(), MathMatrixError>)
        ensures
            res is Ok <==> values.len() == old(self)@.cols && i < old(self)@.rows,
            res is Ok ==> final(self)@ == with_row(old(self)@, i as int, values@),
            res is Err ==> final(self)@ == old(self)@,
            res matches Err(e) ==> if values.len() != old(self)@.cols {
                e.kind() == MathMatrixErrorKind::SizeMismatch && e.message() == row_size_message(
                    values.len() as nat,
                    old(self)@.cols,
                )
            } else {
                e.kind() == MathMatrixErrorKind::OutOfBoundary && e.message() == row_message(
                    i as nat,
                    old(self)@.rows,
                )
            },
    {
        proof {
            use_type_invariant(&*self);
        }
        if values.len() != self.cols {
            return Err(row_size_mismatch(values.len(), self.cols));
        }
        if i >= self.rows {
            return Err(out_of_rows(i, self.rows));
        }
        let mut c: usize = 0;
        while c < self.cols
            invariant
                c <= self@.cols,
                self@.wf(),
                self@.same_shape(old(self)@),
                i < self@.rows,
                values.len() == self@.cols,
                forall|r: int, p: int|
                    self@.has(r, p) ==> #[trigger] self@.at(r, p) == if r == i && p < c {
                        values@[p]
                    } else {
                        old(self)@.at(r, p)
                    },
            decreases self.cols - c,
        {
            proof {
                lemma_with(self@, i as int, c as int, values@[c as int]);
            }
            self.put(i, c, values[c]);
            c = c + 1;
        }
        proof {
            lemma_tabulate(
                with_row(old(self)@, i as int, values@),
                |r: int, p: int|
                    if r == i as int {
                        values@[p]
                    } else {
                        old(self)@.at(r, p)
                    },
            );
            lemma_grid_eq(self@, with_row(old(self)@, i as int, values@));
        }
        Ok(())
    }

    /// Overwrites column `j` with `values`, leaving the shape and every other
    /// column as they were.
    ///
    /// Fails, and changes nothing, when `values` does not hold one element per
    /// row, or when the matrix has no such column.
    pub fn set_column(&mut self, j: usize, values: Vec<T>) -> (res: Result<(), MathMatrixError>)
        ensures
            res is Ok <==> values.len() == old(self)@.rows && j < old(self)@.cols,
            res is Ok ==> final(self)@ == with_column(old(self)@, j as int, values@),
            res is Err ==> final(self)@ == old(self)@,
            res matches Err(e) ==> if values.len() != old(self)@.rows {
                e.kind() == MathMatrixErrorKind::SizeMismatch && e.message()
                    == column_size_message(values.len() as nat, old(self)@.rows)
            } else {
                e.kind() == MathMatrixErrorKind::OutOfBoundary && e.message() == column_message(
                    j as nat,
                    old(self)@.cols,
                )
            },
    {
        proof {
            use_type_invariant(&*self);
        }
        if values.len() != self.rows {
            return Err(column_size_mismatch(values.len(), self.rows));
        }
        if j >= self.cols {
            return Err(out_of_columns(j, self.cols));
        }
        let mut r: usize = 0;
        while r < self.rows
            invariant
                r <= self@.rows,
                self@.wf(),
                self@.same_shape(old(self)@),
                j < self@.cols,
                values.len() == self@.rows,
                forall|p: int, c: int|
                    self@.has(p, c) ==> #[trigger] self@.at(p, c) == if c == j && p < r {
                        values@[p]
                    } else {
                        old(self)@.at(p, c)
                    },
            decreases self.rows - r,
        {
            proof {
                lemma_with(self@, r as int, j as int, values@[r as int]);
            }
            self.put(r, j, values[r]);
            r = r + 1;
        }
        proof {
            lemma_tabulate(
                with_column(old(self)@, j as int, values@),
                |p: int, c: int|
                    if c == j as int {
                        values@[p]
                    } else {
                        old(self)@.at(p, c)
                    },
            );
            lemma_grid_eq(self@, with_column(old(self)@, j as int, values@));
        }
        Ok(())
    }
}

} // verus!
