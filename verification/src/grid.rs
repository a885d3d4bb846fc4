//! The mathematical model of a matrix: a shape and a column-major sequence of
//! cells.

use vstd::arithmetic::div_mod::lemma_fundamental_div_mod;
use vstd::arithmetic::div_mod::lemma_fundamental_div_mod_converse;
use vstd::arithmetic::div_mod::lemma_mod_pos_bound;
use vstd::prelude::*;

verus! {

/// A `rows` by `cols` table whose cell `(i, j)` is `cells[j * rows + i]`.
pub struct Grid<T> {
    pub rows: nat,
    pub cols: nat,
    pub cells: Seq<T>,
}

impl<T> Grid<T> {
    /// Both dimensions are positive and there is one cell per position.
    pub open spec fn wf(self) -> bool {
        &&& self.rows > 0
        &&& self.cols > 0
        &&& self.cells.len() == self.rows * self.cols
    }

    /// Whether `(i, j)` is a position of this grid.
    pub open spec fn has(self, i: int, j: int) -> bool {
        0 <= i < self.rows && 0 <= j < self.cols
    }

    /// The cell in row `i` and column `j`.
    pub open spec fn at(self, i: int, j: int) -> T {
        self.cells[j * self.rows + i]
    }

    /// This grid with the cell in row `i` and column `j` replaced by `value`.
    pub open spec fn with(self, i: int, j: int, value: T) -> Grid<T> {
        Grid { rows: self.rows, cols: self.cols, cells: self.cells.update(j * self.rows + i, value) }
    }

    /// The grid of the given shape whose cell `(i, j)` is `f(i, j)`.
    pub open spec fn tabulate(rows: nat, cols: nat, f: spec_fn(int, int) -> T) -> Grid<T> {
        Grid {
            rows,
            cols,
            cells: Seq::new(rows * cols, |k: int| f(k % (rows as int), k / (rows as int))),
        }
    }

    /// Whether both grids have the same shape.
    pub open spec fn same_shape(self, other: Grid<T>) -> bool {
        self.rows == other.rows && self.cols == other.cols
    }

    /// Whether the grid has as many rows as columns.
    pub open spec fn square(self) -> bool {
        self.rows == self.cols
    }
}

/// A position inside a `rows` by `cols` grid has a flat index inside the
/// grid's cells, and the flat index determines the position.
pub proof fn lemma_flat_index(rows: nat, cols: nat, i: int, j: int)
    requires
        0 <= i < rows,
        0 <= j < cols,
    ensures
        0 <= j * rows + i < rows * cols,
        (j * rows + i) % (rows as int) == i,
        (j * rows + i) / (rows as int) == j,
{
    assert(j * rows + i < rows * cols) by (nonlinear_arith)
        requires
            0 <= i < rows,
            0 <= j < cols,
    ;
    assert(0 <= j * rows) by (nonlinear_arith)
        requires
            0 <= j,
            0 < rows,
    ;
    lemma_fundamental_div_mod_converse(j * rows + i, rows as int, j, i);
}

/// A flat index inside a `rows` by `cols` grid names one position.
pub proof fn lemma_position(rows: nat, cols: nat, k: int)
    requires
        rows > 0,
        0 <= k < rows * cols,
    ensures
        0 <= k % (rows as int) < rows,
        0 <= k / (rows as int) < cols,
        (k / (rows as int)) * rows + k % (rows as int) == k,
{
    let r = rows as int;
    let c = cols as int;
    assert(k == r * (k / r) + k % r) by {
        lemma_fundamental_div_mod(k, r);
    }
    assert(0 <= k % r < r) by {
        lemma_mod_pos_bound(k, r);
    }
    assert(0 <= k / r < c) by (nonlinear_arith)
        requires
            k == r * (k / r) + k % r,
            0 <= k % r < r,
            0 <= k < r * c,
            r > 0,
    ;
    assert((k / r) * r == r * (k / r)) by (nonlinear_arith);
}

/// A grid whose cell at each flat index `k` is `f(k % rows, k / rows)`, as a
/// tabulated grid's is, holds `f(i, j)` at `(i, j)`.
pub proof fn lemma_tabulate<T>(g: Grid<T>, f: spec_fn(int, int) -> T)
    requires
        g.wf(),
        forall|k: int|
            0 <= k < g.cells.len() ==> #[trigger] g.cells[k] == f(
                k % (g.rows as int),
                k / (g.rows as int),
            ),
    ensures
        forall|i: int, j: int| g.has(i, j) ==> #[trigger] g.at(i, j) == f(i, j),
{
    assert forall|i: int, j: int| g.has(i, j) implies #[trigger] g.at(i, j) == f(i, j) by {
        lemma_flat_index(g.rows, g.cols, i, j);
    }
}

/// Replacing one cell keeps the shape, changes that cell and no other.
pub proof fn lemma_with<T>(g: Grid<T>, i: int, j: int, value: T)
    requires
        g.wf(),
        g.has(i, j),
    ensures
        g.with(i, j, value).wf(),
        g.with(i, j, value).same_shape(g),
        g.with(i, j, value).at(i, j) == value,
        forall|r: int, c: int|
            g.has(r, c) && (r != i || c != j) ==> #[trigger] g.with(i, j, value).at(r, c) == g.at(
                r,
                c,
            ),
{
    lemma_flat_index(g.rows, g.cols, i, j);
    assert forall|r: int, c: int| g.has(r, c) && (r != i || c != j) implies #[trigger] g.with(
        i,
        j,
        value,
    ).at(r, c) == g.at(r, c) by {
        lemma_flat_index(g.rows, g.cols, r, c);
    }
}

/// Two well-formed grids of one shape with equal cells at every position are
/// equal.
pub proof fn lemma_grid_eq<T>(a: Grid<T>, b: Grid<T>)
    requires
        a.wf(),
        b.wf(),
        a.same_shape(b),
        forall|i: int, j: int| a.has(i, j) ==> a.at(i, j) == b.at(i, j),
    ensures
        a == b,
{
    assert forall|k: int| 0 <= k < a.cells.len() implies a.cells[k] == b.cells[k] by {
        lemma_position(a.rows, a.cols, k);
        let i = k % (a.rows as int);
        let j = k / (a.rows as int);
        assert(a.has(i, j));
        assert(a.at(i, j) == b.at(i, j));
    }
    assert(a.cells =~= b.cells);
}

} // verus!
