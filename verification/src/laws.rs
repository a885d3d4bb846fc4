//! What holds of the operations on every matrix.

use crate::grid::lemma_grid_eq;
use crate::grid::lemma_position;
use crate::grid::lemma_tabulate;
use crate::grid::Grid;
use crate::matrix::alike;
use crate::matrix::arithmetic::dot;
use crate::matrix::arithmetic::lemma_product;
use crate::matrix::arithmetic::product;
use crate::matrix::arithmetic::transpose;
use crate::matrix::construction::identity_grid;
use crate::matrix::construction::lemma_identity;
use crate::scalar::one;
use crate::scalar::zero;
use crate::scalar::Scalar;
use vstd::prelude::*;
use vstd::std_specs::cmp::PartialEqSpec;
use vstd::std_specs::ops::AddSpec;
use vstd::std_specs::ops::MulSpec;

pub mod algebra;
pub mod factors;
pub mod inverse;
pub mod products;
pub mod substitution;

verus! {

/// The transposed grid has the shape turned over and holds cell `(j, i)` of
/// `a` at `(i, j)`.
pub proof fn lemma_transpose<T>(a: Grid<T>)
    requires
        a.wf(),
    ensures
        transpose(a).wf(),
        transpose(a).rows == a.cols,
        transpose(a).cols == a.rows,
        forall|i: int, j: int| transpose(a).has(i, j) ==> #[trigger] transpose(a).at(i, j) == a.at(j, i),
{
    assert(a.cols * a.rows == a.rows * a.cols) by (nonlinear_arith);
    lemma_tabulate(transpose(a), |i: int, j: int| a.at(j, i));
}

/// Transposing twice gives the matrix back.
pub proof fn lemma_transpose_involution<T>(a: Grid<T>)
    requires
        a.wf(),
    ensures
        transpose(transpose(a)) == a,
{
    lemma_transpose(a);
    lemma_transpose(transpose(a));
    lemma_grid_eq(transpose(transpose(a)), a);
}

/// What a sum from zero makes of `1 * x` alone.
pub open spec fn alone_left<T: Scalar>(x: T) -> T {
    zero::<T>().add_spec(one::<T>().mul_spec(x))
}

/// What a sum from zero makes of `x * 1` alone.
pub open spec fn alone_right<T: Scalar>(x: T) -> T {
    zero::<T>().add_spec(x.mul_spec(one::<T>()))
}

/// Adding `0 * y` leaves both zero and `0 + 1 * x` as they are.
pub open spec fn unmoved_left<T: Scalar>(x: T, y: T) -> bool {
    &&& zero::<T>().add_spec(zero::<T>().mul_spec(y)) == zero::<T>()
    &&& alone_left(x).add_spec(zero::<T>().mul_spec(y)) == alone_left(x)
}

/// Adding `y * 0` leaves both zero and `0 + x * 1` as they are.
pub open spec fn unmoved_right<T: Scalar>(x: T, y: T) -> bool {
    &&& zero::<T>().add_spec(y.mul_spec(zero::<T>())) == zero::<T>()
    &&& alone_right(x).add_spec(y.mul_spec(zero::<T>())) == alone_right(x)
}

/// Adding `0 * y` leaves both zero and `0 + 1 * x` as they are, and
/// `0 + 1 * x` compares equal to `x`.
pub open spec fn neutral_left<T: Scalar>(x: T, y: T) -> bool {
    unmoved_left(x, y) && alone_left(x).eq_spec(&x)
}

/// Adding `y * 0` leaves both zero and `0 + x * 1` as they are, and
/// `0 + x * 1` compares equal to `x`.
pub open spec fn neutral_right<T: Scalar>(x: T, y: T) -> bool {
    unmoved_right(x, y) && alone_right(x).eq_spec(&x)
}

/// The sum that gives element `(i, j)` of the identity times `a` is zero up
/// to row `i` and `0 + 1 * a[i, j]` from there on.
pub proof fn lemma_dot_identity_left<T: Scalar>(a: Grid<T>, i: int, j: int, k: nat)
    requires
        a.wf(),
        a.has(i, j),
        k <= a.rows,
        forall|r: int| 0 <= r < a.rows ==> unmoved_left(a.at(i, j), #[trigger] a.at(r, j)),
    ensures
        dot(identity_grid::<T>(a.rows, a.rows), a, i, j, k) == if k <= i {
            zero::<T>()
        } else {
            alone_left(a.at(i, j))
        },
    decreases k,
{
    if k > 0 {
        lemma_dot_identity_left(a, i, j, (k - 1) as nat);
        lemma_identity::<T>(a.rows, a.rows);
        assert(identity_grid::<T>(a.rows, a.rows).has(i, k - 1));
        assert(unmoved_left(a.at(i, j), a.at(k - 1, j)));
    }
}

/// The sum that gives element `(i, j)` of `a` times the identity is zero up
/// to column `j` and `0 + a[i, j] * 1` from there on.
pub proof fn lemma_dot_identity_right<T: Scalar>(a: Grid<T>, i: int, j: int, k: nat)
    requires
        a.wf(),
        a.has(i, j),
        k <= a.cols,
        forall|c: int| 0 <= c < a.cols ==> unmoved_right(a.at(i, j), #[trigger] a.at(i, c)),
    ensures
        dot(a, identity_grid::<T>(a.cols, a.cols), i, j, k) == if k <= j {
            zero::<T>()
        } else {
            alone_right(a.at(i, j))
        },
    decreases k,
{
    if k > 0 {
        lemma_dot_identity_right(a, i, j, (k - 1) as nat);
        lemma_identity::<T>(a.cols, a.cols);
        assert(identity_grid::<T>(a.cols, a.cols).has(k - 1, j));
        assert(unmoved_right(a.at(i, j), a.at(i, k - 1)));
    }
}

/// The square identity on the left of a product gives the other factor back:
/// where zero and one act on the elements of `a` as they do on numbers, each
/// element of the product is `0 + 1 * x` for the element `x` of `a` in its
/// place, and compares equal to it.
pub proof fn lemma_identity_left<T: Scalar>(a: Grid<T>)
    requires
        a.wf(),
        forall|i: int, j: int, r: int|
            a.has(i, j) && 0 <= r < a.rows ==> neutral_left(#[trigger] a.at(i, j), #[trigger] a.at(r, j)),
    ensures
        product(identity_grid::<T>(a.rows, a.rows), a).wf(),
        product(identity_grid::<T>(a.rows, a.rows), a).same_shape(a),
        forall|i: int, j: int|
            a.has(i, j) ==> #[trigger] product(identity_grid::<T>(a.rows, a.rows), a).at(i, j)
                == alone_left(a.at(i, j)),
        alike(product(identity_grid::<T>(a.rows, a.rows), a), a),
{
    let e = identity_grid::<T>(a.rows, a.rows);
    let p = product(e, a);
    lemma_identity::<T>(a.rows, a.rows);
    lemma_product(e, a);
    assert forall|i: int, j: int| a.has(i, j) implies #[trigger] p.at(i, j) == alone_left(
        a.at(i, j),
    ) by {
        assert forall|r: int| 0 <= r < a.rows implies unmoved_left(
            a.at(i, j),
            #[trigger] a.at(r, j),
        ) by {
            assert(neutral_left(a.at(i, j), a.at(r, j)));
        }
        lemma_dot_identity_left(a, i, j, a.rows);
    }
    assert forall|k: int| 0 <= k < p.cells.len() implies (#[trigger] p.cells[k]).eq_spec(
        &a.cells[k],
    ) by {
        lemma_position(a.rows, a.cols, k);
        let i = k % (a.rows as int);
        let j = k / (a.rows as int);
        assert(p.at(i, j) == alone_left(a.at(i, j)));
        assert(neutral_left(a.at(i, j), a.at(i, j)));
    }
}

/// The square identity on the right of a product gives the other factor back:
/// where zero and one act on the elements of `a` as they do on numbers, each
/// element of the product is `0 + x * 1` for the element `x` of `a` in its
/// place, and compares equal to it.
pub proof fn lemma_identity_right<T: Scalar>(a: Grid<T>)
    requires
        a.wf(),
        forall|i: int, j: int, c: int|
            a.has(i, j) && 0 <= c < a.cols ==> neutral_right(#[trigger] a.at(i, j), #[trigger] a.at(i, c)),
    ensures
        product(a, identity_grid::<T>(a.cols, a.cols)).wf(),
        product(a, identity_grid::<T>(a.cols, a.cols)).same_shape(a),
        forall|i: int, j: int|
            a.has(i, j) ==> #[trigger] product(a, identity_grid::<T>(a.cols, a.cols)).at(i, j)
                == alone_right(a.at(i, j)),
        alike(product(a, identity_grid::<T>(a.cols, a.cols)), a),
{
    let e = identity_grid::<T>(a.cols, a.cols);
    let p = product(a, e);
    lemma_identity::<T>(a.cols, a.cols);
    lemma_product(a, e);
    assert forall|i: int, j: int| a.has(i, j) implies #[trigger] p.at(i, j) == alone_right(
        a.at(i, j),
    ) by {
        assert forall|c: int| 0 <= c < a.cols implies unmoved_right(
            a.at(i, j),
            #[trigger] a.at(i, c),
        ) by {
            assert(neutral_right(a.at(i, j), a.at(i, c)));
        }
        lemma_dot_identity_right(a, i, j, a.cols);
    }
    assert forall|k: int| 0 <= k < p.cells.len() implies (#[trigger] p.cells[k]).eq_spec(
        &a.cells[k],
    ) by {
        lemma_position(a.rows, a.cols, k);
        let i = k % (a.rows as int);
        let j = k / (a.rows as int);
        assert(p.at(i, j) == alone_right(a.at(i, j)));
        assert(neutral_right(a.at(i, j), a.at(i, j)));
    }
}

} // verus!
