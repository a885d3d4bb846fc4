//! LU decomposition by Gaussian elimination without pivoting.

use crate::error::MathMatrixError;
use crate::error::MathMatrixErrorKind;
use crate::grid::lemma_grid_eq;
use crate::grid::lemma_tabulate;
use crate::grid::lemma_with;
use crate::grid::Grid;
use crate::matrix::construction::identity_grid;
use crate::matrix::construction::lemma_identity;
use crate::matrix::Matrix;
use crate::scalar::exact;
use crate::scalar::is_zero;
use crate::scalar::one;
use crate::scalar::safe;
use crate::scalar::total;
use crate::scalar::zero;
use crate::scalar::Scalar;
use vstd::prelude::*;
use vstd::std_specs::ops::DivSpec;
use vstd::std_specs::ops::MulSpec;
use vstd::std_specs::ops::SubSpec;
use vstd::string::StringExecFns;

verus! {

/// The message of a decomposition of a matrix that is not square.
pub open spec fn not_square_message() -> Seq<char> {
    "LU decomposition allowed only for square matrices"@
}

/// The message of a decomposition that met a zero pivot.
pub open spec fn zero_pivot_message() -> Seq<char> {
    "Found zero"@
}

/// The lower and the upper factor, in this order, as elimination has them at
/// some step.
pub type Factors<T> = (Grid<T>, Grid<T>);

/// The grid `u` after `factor` times row `j` has been subtracted from row
/// `i`, in every column.
pub open spec fn reduced<T: Scalar>(u: Grid<T>, i: int, j: int, factor: T) -> Grid<T> {
    Grid::tabulate(
        u.rows,
        u.cols,
        |r: int, c: int|
            if r == i {
                u.at(i, c).sub_spec(factor.mul_spec(u.at(j, c)))
            } else {
                u.at(r, c)
            },
    )
}

/// The reduced grid has the shape of `u`, row `i` reduced and every other row
/// as it was.
pub proof fn lemma_reduced<T: Scalar>(u: Grid<T>, i: int, j: int, factor: T)
    requires
        u.wf(),
    ensures
        reduced(u, i, j, factor).wf(),
        reduced(u, i, j, factor).same_shape(u),
        forall|r: int, c: int|
            u.has(r, c) ==> #[trigger] reduced(u, i, j, factor).at(r, c) == if r == i {
                u.at(i, c).sub_spec(factor.mul_spec(u.at(j, c)))
            } else {
                u.at(r, c)
            },
{
    lemma_tabulate(
        reduced(u, i, j, factor),
        |r: int, c: int|
            if r == i {
                u.at(i, c).sub_spec(factor.mul_spec(u.at(j, c)))
            } else {
                u.at(r, c)
            },
    );
}

/// One elimination step, on row `i` and column `j`: nothing where the pivot
/// `u[j, j]` is zero; otherwise the multiplier `u[i, j] / u[j, j]` is recorded
/// in the lower factor at `(i, j)`, and that many times row `j` is subtracted
/// from row `i` of the upper factor.
pub open spec fn step<T: Scalar>(factors: Factors<T>, i: int, j: int) -> Option<Factors<T>> {
    let (l, u) = factors;
    if is_zero(u.at(j, j)) {
        None
    } else {
        let factor = u.at(i, j).div_spec(u.at(j, j));
        Some((l.with(i, j, factor), reduced(u, i, j, factor)))
    }
}

/// The steps of row `i` on the columns below `j`, in increasing order, from
/// `start`: nothing once a step has met a zero pivot.
pub open spec fn row_pass<T: Scalar>(start: Option<Factors<T>>, i: int, j: nat) -> Option<
    Factors<T>,
>
    decreases j,
{
    if j == 0 {
        start
    } else {
        match row_pass(start, i, (j - 1) as nat) {
            None => None,
            Some(factors) => step(factors, i, j - 1),
        }
    }
}

/// The factors after the rows below `i` have been processed, each on the
/// columns left of its diagonal, from the identity and `a` itself.
pub open spec fn eliminated<T: Scalar>(a: Grid<T>, i: nat) -> Option<Factors<T>>
    decreases i,
{
    if i <= 1 {
        Some((identity_grid::<T>(a.rows, a.cols), a))
    } else {
        row_pass(eliminated(a, (i - 1) as nat), i - 1, (i - 1) as nat)
    }
}

/// The factors of the square grid `a`, or nothing where elimination meets a
/// zero pivot.
pub open spec fn lu<T: Scalar>(a: Grid<T>) -> Option<Factors<T>> {
    eliminated(a, a.rows)
}

/// Whether each multiplication and each subtraction that reduces row `i` of
/// `u` by `factor` times row `j` is defined.
pub open spec fn reduced_defined<T: Scalar>(u: Grid<T>, i: int, j: int, factor: T) -> bool {
    forall|c: int|
        0 <= c < u.cols ==> factor.mul_req(#[trigger] u.at(j, c)) && u.at(i, c).sub_req(
            factor.mul_spec(u.at(j, c)),
        )
}

/// Whether each operation of the elimination step on row `i` and column `j`
/// is defined: past a pivot that is not zero, the division that gives the
/// multiplier and the reduction of the row.
pub open spec fn step_defined<T: Scalar>(factors: Factors<T>, i: int, j: int) -> bool {
    let u = factors.1;
    !is_zero(u.at(j, j)) ==> {
        &&& u.at(i, j).div_req(u.at(j, j))
        &&& reduced_defined(u, i, j, u.at(i, j).div_spec(u.at(j, j)))
    }
}

/// Whether each operation of the steps of row `i` on the columns below `j` is
/// defined.
pub open spec fn row_pass_defined<T: Scalar>(start: Option<Factors<T>>, i: int, j: nat) -> bool
    decreases j,
{
    if j == 0 {
        true
    } else {
        &&& row_pass_defined(start, i, (j - 1) as nat)
        &&& match row_pass(start, i, (j - 1) as nat) {
            None => true,
            Some(factors) => step_defined(factors, i, j - 1),
        }
    }
}

/// Whether each operation of the elimination on the rows below `i` is
/// defined.
pub open spec fn eliminated_defined<T: Scalar>(a: Grid<T>, i: nat) -> bool
    decreases i,
{
    if i <= 1 {
        true
    } else {
        &&& eliminated_defined(a, (i - 1) as nat)
        &&& row_pass_defined(eliminated(a, (i - 1) as nat), i - 1, (i - 1) as nat)
    }
}

/// Whether each operation of the elimination on the square grid `a` is
/// defined.
pub open spec fn lu_defined<T: Scalar>(a: Grid<T>) -> bool {
    eliminated_defined(a, a.rows)
}

proof fn lemma_row_pass_defined_before<T: Scalar>(
    start: Option<Factors<T>>,
    i: int,
    j: nat,
    k: nat,
)
    requires
        j <= k,
        row_pass_defined(start, i, k),
    ensures
        row_pass_defined(start, i, j),
    decreases k,
{
    if j < k {
        lemma_row_pass_defined_before(start, i, j, (k - 1) as nat);
    }
}

proof fn lemma_eliminated_defined_before<T: Scalar>(a: Grid<T>, i: nat, k: nat)
    requires
        i <= k,
        eliminated_defined(a, k),
    ensures
        eliminated_defined(a, i),
    decreases k,
{
    if i < k && k > 1 {
        lemma_eliminated_defined_before(a, i, (k - 1) as nat);
    }
}

/// A row that has met a zero pivot stays without factors.
pub proof fn lemma_row_pass_stuck<T: Scalar>(start: Option<Factors<T>>, i: int, j: nat, k: nat)
    requires
        j <= k,
        row_pass(start, i, j) is None,
    ensures
        row_pass(start, i, k) is None,
    decreases k,
{
    if j < k {
        lemma_row_pass_stuck(start, i, j, (k - 1) as nat);
    }
}

/// An elimination that has met a zero pivot stays without factors.
pub proof fn lemma_eliminated_stuck<T: Scalar>(a: Grid<T>, i: nat, k: nat)
    requires
        1 <= i <= k,
        eliminated(a, i) is None,
    ensures
        eliminated(a, k) is None,
    decreases k,
{
    if i < k {
        lemma_eliminated_stuck(a, i, (k - 1) as nat);
        lemma_row_pass_stuck(eliminated(a, (k - 1) as nat), k - 1, 0, (k - 1) as nat);
    }
}

/// Whether the elimination on `a` reaches the step on row `i` and column `j`
/// and finds the pivot of that step to be zero.
pub open spec fn zero_pivot_at<T: Scalar>(a: Grid<T>, i: nat, j: nat) -> bool {
    &&& j < i < a.rows
    &&& row_pass(eliminated(a, i), i as int, j) matches Some(factors) && is_zero(
        factors.1.at(j as int, j as int),
    )
}

proof fn lemma_row_pass_fails<T: Scalar>(start: Factors<T>, i: int, j: nat) -> (k: nat)
    requires
        row_pass(Some(start), i, j) is None,
    ensures
        k < j,
        row_pass(Some(start), i, k) matches Some(factors) && is_zero(
            factors.1.at(k as int, k as int),
        ),
    decreases j,
{
    if row_pass(Some(start), i, (j - 1) as nat) is None {
        lemma_row_pass_fails(start, i, (j - 1) as nat)
    } else {
        (j - 1) as nat
    }
}

proof fn lemma_eliminated_fails<T: Scalar>(a: Grid<T>, n: nat) -> (at: (nat, nat))
    requires
        n <= a.rows,
        eliminated(a, n) is None,
    ensures
        at.0 < n,
        zero_pivot_at(a, at.0, at.1),
    decreases n,
{
    let before = eliminated(a, (n - 1) as nat);
    if before is None {
        lemma_eliminated_fails(a, (n - 1) as nat)
    } else {
        let k = lemma_row_pass_fails(before.unwrap(), n - 1, (n - 1) as nat);
        ((n - 1) as nat, k)
    }
}

/// Elimination on a grid gives no factors if and only if some step of it
/// finds its pivot to be zero.
pub proof fn lemma_lu_fails<T: Scalar>(a: Grid<T>)
    ensures
        lu(a) is None <==> exists|i: nat, j: nat| zero_pivot_at(a, i, j),
{
    if lu(a) is None {
        let at = lemma_eliminated_fails(a, a.rows);
        assert(zero_pivot_at(a, at.0, at.1));
    }
    if exists|i: nat, j: nat| zero_pivot_at(a, i, j) {
        let (i, j) = choose|i: nat, j: nat| zero_pivot_at(a, i, j);
        let start = eliminated(a, i);
        assert(row_pass(start, i as int, (j + 1) as nat) is None);
        lemma_row_pass_stuck(start, i as int, (j + 1) as nat, i);
        assert(eliminated(a, (i + 1) as nat) is None);
        lemma_eliminated_stuck(a, (i + 1) as nat, a.rows);
    }
}

/// Whether a grid holds one on its diagonal and zero above it.
pub open spec fn unit_lower<T: Scalar>(l: Grid<T>) -> bool {
    forall|i: int, j: int|
        l.has(i, j) ==> (i == j ==> #[trigger] l.at(i, j) == one::<T>()) && (i < j ==> l.at(i, j)
            == zero::<T>())
}

/// Whether both factors are well formed, of the shape of the square grid
/// `a`, and the lower one holds one on its diagonal and zero above it.
pub open spec fn shaped<T: Scalar>(factors: Factors<T>, a: Grid<T>) -> bool {
    &&& factors.0.wf()
    &&& factors.1.wf()
    &&& factors.0.same_shape(a)
    &&& factors.1.same_shape(a)
    &&& unit_lower(factors.0)
}

/// An elimination step keeps the factors shaped.
pub proof fn lemma_step_shaped<T: Scalar>(factors: Factors<T>, a: Grid<T>, i: int, j: int)
    requires
        shaped(factors, a),
        0 <= j < i < a.rows,
        a.square(),
        step(factors, i, j) is Some,
    ensures
        shaped(step(factors, i, j).unwrap(), a),
{
    let (l, u) = factors;
    let factor = u.at(i, j).div_spec(u.at(j, j));
    lemma_with(l, i, j, factor);
}

proof fn lemma_row_pass_shaped<T: Scalar>(start: Factors<T>, a: Grid<T>, i: int, j: nat)
    requires
        shaped(start, a),
        j <= i < a.rows,
        a.square(),
        row_pass(Some(start), i, j) is Some,
    ensures
        shaped(row_pass(Some(start), i, j).unwrap(), a),
    decreases j,
{
    if j > 0 {
        lemma_row_pass_shaped(start, a, i, (j - 1) as nat);
        lemma_step_shaped(row_pass(Some(start), i, (j - 1) as nat).unwrap(), a, i, j - 1);
    }
}

proof fn lemma_eliminated_shaped<T: Scalar>(a: Grid<T>, i: nat)
    requires
        a.wf(),
        a.square(),
        i <= a.rows,
        eliminated(a, i) is Some,
    ensures
        shaped(eliminated(a, i).unwrap(), a),
    decreases i,
{
    if i <= 1 {
        lemma_identity::<T>(a.rows, a.cols);
    } else {
        let before = eliminated(a, (i - 1) as nat);
        if before is None {
            lemma_row_pass_stuck(before, i - 1, 0, (i - 1) as nat);
        }
        lemma_eliminated_shaped(a, (i - 1) as nat);
        lemma_row_pass_shaped(before.unwrap(), a, i - 1, (i - 1) as nat);
    }
}

/// Where elimination gives factors of a square grid, both have the grid's
/// shape, and the lower one holds one on its diagonal and zero above it.
pub proof fn lemma_lu_shaped<T: Scalar>(a: Grid<T>)
    requires
        a.wf(),
        a.square(),
        lu(a) is Some,
    ensures
        shaped(lu(a).unwrap(), a),
{
    lemma_eliminated_shaped(a, a.rows);
}

impl<T: Scalar> Matrix<T> {
    /// Subtracts `factor` times row `j` from row `i`, in every column.
    fn reduce_row(&mut self, i: usize, j: usize, factor: T)
        requires
            safe::<T>(reduced_defined(old(self)@, i as int, j as int, factor)),
            i < old(self)@.rows,
            j < old(self)@.rows,
            i != j,
        ensures
            final(self)@.wf(),
            final(self)@.same_shape(old(self)@),
            exact::<T>() ==> final(self)@ == reduced(old(self)@, i as int, j as int, factor),
    {
        proof {
            use_type_invariant(&*self);
        }
        let cols = self.cols;
        let mut c: usize = 0;
        while c < cols
            invariant
                safe::<T>(reduced_defined(old(self)@, i as int, j as int, factor)),
                c <= cols,
                cols == self@.cols,
                self@.wf(),
                self@.same_shape(old(self)@),
                i < self@.rows,
                j < self@.rows,
                i != j,
                forall|r: int, p: int|
                    self@.has(r, p) && (r != i || p >= c) ==> #[trigger] self@.at(r, p) == old(
                        self,
                    )@.at(r, p),
                exact::<T>() ==> forall|p: int|
                    0 <= p < c ==> #[trigger] self@.at(i as int, p) == old(self)@.at(
                        i as int,
                        p,
                    ).sub_spec(factor.mul_spec(old(self)@.at(j as int, p))),
            decreases cols - c,
        {
            assert(self@.at(j as int, c as int) == old(self)@.at(j as int, c as int));
            assert(self@.at(i as int, c as int) == old(self)@.at(i as int, c as int));
            let value = self.cell(i, c) - factor * self.cell(j, c);
            proof {
                lemma_with(self@, i as int, c as int, value);
            }
            self.put(i, c, value);
            c = c + 1;
        }
        proof {
            if exact::<T>() {
                lemma_reduced(old(self)@, i as int, j as int, factor);
                lemma_grid_eq(self@, reduced(old(self)@, i as int, j as int, factor));
            }
        }
    }

    /// Factors the matrix into a unit lower-triangular `L` and an upper `U`,
    /// returned in this order, by elimination without pivoting: for each row
    /// `i` from the second on, and each column `j` left of the diagonal in
    /// increasing order, the multiplier `U[i, j] / U[j, j]` goes to `L[i, j]`
    /// and that many times row `j` of `U` is subtracted from row `i`. No
    /// operation on the elements may be able to fail.
    ///
    /// Fails when the matrix is not square, or when a pivot `U[j, j]` is zero.
    pub fn decompose(&self) -> (res: Result<(Matrix<T>, Matrix<T>), MathMatrixError>)
        requires
            self@.square() ==> safe::<T>(lu_defined(self@)),
        ensures
            !self@.square() ==> (res matches Err(e) && e.kind()
                == MathMatrixErrorKind::OperationNotPermitted && e.message()
                == not_square_message()),
            self@.square() ==> (res matches Err(e) ==> e.kind()
                == MathMatrixErrorKind::FailedToDecompose && e.message() == zero_pivot_message()),
            self@.square() && exact::<T>() ==> (res is Err <==> lu(self@) is None),
            res matches Ok(factors) ==> factors.0@.wf() && factors.1@.wf() && factors.0@.same_shape(
                self@,
            ) && factors.1@.same_shape(self@),
            res matches Ok(factors) ==> exact::<T>() ==> lu(self@) == Some(
                (factors.0@, factors.1@),
            ),
            res matches Ok(factors) ==> exact::<T>() ==> unit_lower(factors.0@),
    {
        proof {
            use_type_invariant(self);
        }
        let n = self.rows;
        if n != self.cols {
            return Err(
                MathMatrixError::new(
                    MathMatrixErrorKind::OperationNotPermitted,
                    String::from_str("LU decomposition allowed only for square matrices"),
                ),
            );
        }
        let mut u = self.clone();
        let mut l = match Matrix::identity(n, n) {
            Ok(l) => l,
            Err(e) => {
                return Err(e);
            },
        };
        let mut i: usize = 1;
        while i < n
            invariant
                safe::<T>(lu_defined(self@)),
                n == self@.rows,
                self@.wf(),
                self@.square(),
                1 <= i,
                i <= n || n == 0,
                l@.wf(),
                u@.wf(),
                l@.same_shape(self@),
                u@.same_shape(self@),
                exact::<T>() ==> eliminated(self@, i as nat) == Some((l@, u@)),
            decreases n - i,
        {
            let mut j: usize = 0;
            while j < i
                invariant
                    safe::<T>(lu_defined(self@)),
                    n == self@.rows,
                    self@.wf(),
                    self@.square(),
                    1 <= i < n,
                    j <= i,
                    l@.wf(),
                    u@.wf(),
                    l@.same_shape(self@),
                    u@.same_shape(self@),
                    exact::<T>() ==> row_pass(eliminated(self@, i as nat), i as int, j as nat)
                        == Some((l@, u@)),
                decreases i - j,
            {
                proof {
                    if !total::<T>() {
                        let start = eliminated(self@, i as nat);
                        lemma_eliminated_defined_before(self@, (i + 1) as nat, n as nat);
                        lemma_row_pass_defined_before(start, i as int, (j + 1) as nat, i as nat);
                        assert(step_defined((l@, u@), i as int, j as int));
                    }
                }
                let numerator = u.cell(i, j);
                let denominator = u.cell(j, j);
                if denominator == T::from(0i8) {
                    proof {
                        if exact::<T>() {
                            let start = eliminated(self@, i as nat);
                            assert(row_pass(start, i as int, (j + 1) as nat) is None);
                            lemma_row_pass_stuck(start, i as int, (j + 1) as nat, i as nat);
                            assert(eliminated(self@, (i + 1) as nat) is None);
                            lemma_eliminated_stuck(self@, (i + 1) as nat, n as nat);
                        }
                    }
                    return Err(
                        MathMatrixError::new(
                            MathMatrixErrorKind::FailedToDecompose,
                            String::from_str("Found zero"),
                        ),
                    );
                }
                let factor = numerator / denominator;
                proof {
                    lemma_with(l@, i as int, j as int, factor);
                }
                l.put(i, j, factor);
                u.reduce_row(i, j, factor);
                j = j + 1;
            }
            i = i + 1;
        }
        proof {
            if exact::<T>() {
                lemma_lu_shaped(self@);
            }
        }
        Ok((l, u))
    }
}

} // verus!
