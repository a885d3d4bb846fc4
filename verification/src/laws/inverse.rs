//! The inverse where the arithmetic is lawful: a product with it, on either
//! side, is the identity.

use crate::grid::lemma_grid_eq;
use crate::grid::Grid;
use crate::laws::algebra::lawful;
use crate::laws::algebra::lemma_add_cancels_left;
use crate::laws::algebra::lemma_add_zero;
use crate::laws::algebra::lemma_mul_cancels;
use crate::laws::algebra::lemma_products;
use crate::laws::algebra::lemma_total_of_equal_tails;
use crate::laws::algebra::lemma_total_of_equal_terms;
use crate::laws::algebra::lemma_total_of_zero_terms;
use crate::laws::algebra::total_of;
use crate::laws::factors::lemma_dot_is_total;
use crate::laws::factors::lemma_lu_reconstructs;
use crate::laws::factors::terms;
use crate::laws::factors::upper;
use crate::laws::products::lemma_identity_left_exact;
use crate::laws::products::lemma_identity_right_exact;
use crate::laws::products::lemma_product_associates;
use crate::laws::substitution::lemma_backward_solves;
use crate::laws::substitution::lemma_forward_solves;
use crate::matrix::arithmetic::dot;
use crate::matrix::arithmetic::lemma_product;
use crate::matrix::arithmetic::product;
use crate::matrix::construction::identity_grid;
use crate::matrix::construction::lemma_identity;
use crate::matrix::decomposition::lemma_lu_shaped;
use crate::matrix::decomposition::lu;
use crate::matrix::decomposition::unit_lower;
use crate::matrix::inversion::forward_grid;
use crate::matrix::inversion::inverse;
use crate::matrix::inversion::lemma_backward_grid;
use crate::matrix::inversion::lemma_forward_grid;
use crate::matrix::inversion::zero_on_diagonal;
use crate::scalar::zero;
use crate::scalar::Scalar;
use vstd::prelude::*;

verus! {

proof fn lemma_lower_rows_agree<T: Scalar>(l: Grid<T>, z: Grid<T>, w: Grid<T>, c: int, r: nat)
    requires
        lawful::<T>(),
        l.wf(),
        l.square(),
        unit_lower(l),
        z.wf(),
        w.wf(),
        z.rows == l.cols,
        z.same_shape(w),
        product(l, z) == product(l, w),
        0 <= c < z.cols,
        r <= l.rows,
    ensures
        forall|k: int| 0 <= k < r ==> #[trigger] z.at(k, c) == w.at(k, c),
    decreases r,
{
    if r > 0 {
        let row = r - 1;
        let n = l.rows;
        lemma_lower_rows_agree(l, z, w, c, row as nat);
        lemma_product(l, z);
        lemma_product(l, w);
        let tz = terms(l, z, row, c);
        let tw = terms(l, w, row, c);
        assert(product(l, z).has(row, c));
        assert(product(l, z).at(row, c) == dot(l, z, row, c, n));
        assert(product(l, w).at(row, c) == dot(l, w, row, c, n));
        lemma_dot_is_total(l, z, row, c, n);
        lemma_dot_is_total(l, w, row, c, n);
        assert forall|k: int| row < k < n implies #[trigger] tz(k) == tw(k) by {
            assert(l.has(row, k));
            lemma_products(z.at(k, c));
            lemma_products(w.at(k, c));
        }
        lemma_total_of_equal_tails(tz, tw, r, n);
        assert forall|k: int| 0 <= k < row implies #[trigger] tz(k) == tw(k) by {
            assert(z.at(k, c) == w.at(k, c));
        }
        lemma_total_of_equal_terms(tz, tw, row as nat);
        assert(l.has(row, row));
        lemma_products(z.at(row, c));
        lemma_products(w.at(row, c));
        lemma_add_cancels_left(total_of(tz, row as nat), z.at(row, c), w.at(row, c));
    }
}

/// Where the arithmetic is lawful, a square factor with one on its diagonal
/// and zero above it can be taken away from the left of both sides of an
/// equation of products.
pub proof fn lemma_lower_cancels<T: Scalar>(l: Grid<T>, z: Grid<T>, w: Grid<T>)
    requires
        lawful::<T>(),
        l.wf(),
        l.square(),
        unit_lower(l),
        z.wf(),
        w.wf(),
        z.rows == l.cols,
        z.same_shape(w),
        product(l, z) == product(l, w),
    ensures
        z == w,
{
    assert forall|i: int, j: int| z.has(i, j) implies z.at(i, j) == w.at(i, j) by {
        lemma_lower_rows_agree(l, z, w, j, l.rows);
    }
    lemma_grid_eq(z, w);
}

proof fn lemma_upper_rows_agree<T: Scalar>(u: Grid<T>, z: Grid<T>, w: Grid<T>, c: int, r: nat)
    requires
        lawful::<T>(),
        u.wf(),
        u.square(),
        upper(u),
        !zero_on_diagonal(u),
        z.wf(),
        w.wf(),
        z.rows == u.cols,
        z.same_shape(w),
        product(u, z) == product(u, w),
        0 <= c < z.cols,
        r <= u.rows,
    ensures
        forall|k: int| r <= k < u.rows ==> #[trigger] z.at(k, c) == w.at(k, c),
    decreases u.rows - r,
{
    let n = u.rows;
    if r < n {
        lemma_upper_rows_agree(u, z, w, c, r + 1);
        lemma_product(u, z);
        lemma_product(u, w);
        let row = r as int;
        let tz = terms(u, z, row, c);
        let tw = terms(u, w, row, c);
        assert(product(u, z).has(row, c));
        assert(product(u, z).at(row, c) == dot(u, z, row, c, n));
        assert(product(u, w).at(row, c) == dot(u, w, row, c, n));
        lemma_dot_is_total(u, z, row, c, n);
        lemma_dot_is_total(u, w, row, c, n);
        assert forall|k: int| row < k < n implies #[trigger] tz(k) == tw(k) by {
            assert(z.at(k, c) == w.at(k, c));
        }
        lemma_total_of_equal_tails(tz, tw, r + 1, n);
        assert forall|k: int| 0 <= k < row implies #[trigger] tz(k) == zero::<T>() by {
            assert(u.has(row, k));
            lemma_products(z.at(k, c));
        }
        assert forall|k: int| 0 <= k < row implies #[trigger] tw(k) == zero::<T>() by {
            assert(u.has(row, k));
            lemma_products(w.at(k, c));
        }
        lemma_total_of_zero_terms(tz, 0, r);
        lemma_total_of_zero_terms(tw, 0, r);
        lemma_add_zero(tz(row));
        lemma_add_zero(tw(row));
        assert(u.has(row, row));
        lemma_mul_cancels(u.at(row, row), z.at(row, c), w.at(row, c));
    }
}

/// Where the arithmetic is lawful, a square factor with zero below its
/// diagonal and no zero on it can be taken away from the left of both sides
/// of an equation of products.
pub proof fn lemma_upper_cancels<T: Scalar>(u: Grid<T>, z: Grid<T>, w: Grid<T>)
    requires
        lawful::<T>(),
        u.wf(),
        u.square(),
        upper(u),
        !zero_on_diagonal(u),
        z.wf(),
        w.wf(),
        z.rows == u.cols,
        z.same_shape(w),
        product(u, z) == product(u, w),
    ensures
        z == w,
{
    assert forall|i: int, j: int| z.has(i, j) implies z.at(i, j) == w.at(i, j) by {
        lemma_upper_rows_agree(u, z, w, j, 0);
    }
    lemma_grid_eq(z, w);
}

/// Where the arithmetic is lawful and the inversion of a square grid gives a
/// grid, that grid times the given one, and the given one times that grid,
/// are the identity.
pub proof fn lemma_inverse_inverts<T: Scalar>(a: Grid<T>)
    requires
        lawful::<T>(),
        a.wf(),
        a.square(),
        inverse(a) is Some,
    ensures
        product(inverse(a).unwrap(), a) == identity_grid::<T>(a.rows, a.rows),
        product(a, inverse(a).unwrap()) == identity_grid::<T>(a.rows, a.rows),
{
    let n = a.rows;
    let e = identity_grid::<T>(n, n);
    let (l, u) = lu(a).unwrap();
    let y = forward_grid(l);
    let x = inverse(a).unwrap();
    lemma_identity::<T>(n, n);
    lemma_lu_shaped(a);
    lemma_lu_reconstructs(a);
    lemma_forward_grid(l);
    lemma_backward_grid(u, y);
    lemma_forward_solves(l);
    lemma_backward_solves(u, y);
    // a * x == (l * u) * x == l * (u * x) == l * y == e
    lemma_product_associates(l, u, x);
    // l * (y * l) == (l * y) * l == e * l == l == l * e, so y * l == e
    lemma_product(y, l);
    lemma_product_associates(l, y, l);
    lemma_identity_left_exact(l);
    lemma_identity_right_exact(l);
    lemma_lower_cancels(l, product(y, l), e);
    // u * (x * a) == (u * x) * a == y * (l * u) == (y * l) * u == e * u == u == u * e
    lemma_product(x, a);
    lemma_product_associates(u, x, a);
    lemma_product_associates(y, l, u);
    lemma_identity_left_exact(u);
    lemma_identity_right_exact(u);
    lemma_upper_cancels(u, product(x, a), e);
}

} // verus!
