//! Products of grids where the arithmetic is lawful: the identity as a
//! factor, and products of three grids.

use crate::grid::lemma_grid_eq;
use crate::grid::Grid;
use crate::laws::algebra::across;
use crate::laws::algebra::along;
use crate::laws::algebra::lawful;
use crate::laws::algebra::lemma_add_zero;
use crate::laws::algebra::lemma_mul_associates;
use crate::laws::algebra::lemma_mul_commutes;
use crate::laws::algebra::lemma_products;
use crate::laws::algebra::lemma_total_of_equal_terms;
use crate::laws::algebra::lemma_total_of_multiples;
use crate::laws::algebra::lemma_total_of_totals;
use crate::laws::algebra::total_of;
use crate::laws::algebra::totals_across;
use crate::laws::algebra::totals_along;
use crate::laws::factors::lemma_dot_is_total;
use crate::laws::factors::terms;
use crate::laws::lemma_dot_identity_left;
use crate::laws::lemma_dot_identity_right;
use crate::laws::unmoved_left;
use crate::laws::unmoved_right;
use crate::matrix::arithmetic::dot;
use crate::matrix::arithmetic::lemma_product;
use crate::matrix::arithmetic::product;
use crate::matrix::construction::identity_grid;
use crate::matrix::construction::lemma_identity;
use crate::scalar::zero;
use crate::scalar::Scalar;
use vstd::prelude::*;
use vstd::std_specs::ops::MulSpec;

verus! {

/// Where the arithmetic is lawful, the square identity on the left of a
/// product gives the other factor back.
pub proof fn lemma_identity_left_exact<T: Scalar>(a: Grid<T>)
    requires
        lawful::<T>(),
        a.wf(),
    ensures
        product(identity_grid::<T>(a.rows, a.rows), a) == a,
{
    let e = identity_grid::<T>(a.rows, a.rows);
    lemma_identity::<T>(a.rows, a.rows);
    lemma_product(e, a);
    assert forall|i: int, j: int| a.has(i, j) implies product(e, a).at(i, j) == a.at(i, j) by {
        assert forall|r: int| 0 <= r < a.rows implies unmoved_left(
            a.at(i, j),
            #[trigger] a.at(r, j),
        ) by {
            lemma_products(a.at(r, j));
            lemma_products(a.at(i, j));
            lemma_add_zero(zero::<T>());
            lemma_add_zero(a.at(i, j));
        }
        lemma_dot_identity_left(a, i, j, a.rows);
        lemma_products(a.at(i, j));
        lemma_add_zero(a.at(i, j));
    }
    lemma_grid_eq(product(e, a), a);
}

/// Where the arithmetic is lawful, the square identity on the right of a
/// product gives the other factor back.
pub proof fn lemma_identity_right_exact<T: Scalar>(a: Grid<T>)
    requires
        lawful::<T>(),
        a.wf(),
    ensures
        product(a, identity_grid::<T>(a.cols, a.cols)) == a,
{
    let e = identity_grid::<T>(a.cols, a.cols);
    lemma_identity::<T>(a.cols, a.cols);
    lemma_product(a, e);
    assert forall|i: int, j: int| a.has(i, j) implies product(a, e).at(i, j) == a.at(i, j) by {
        assert forall|c: int| 0 <= c < a.cols implies unmoved_right(
            a.at(i, j),
            #[trigger] a.at(i, c),
        ) by {
            lemma_products(a.at(i, c));
            lemma_products(a.at(i, j));
            lemma_add_zero(zero::<T>());
            lemma_add_zero(a.at(i, j));
        }
        lemma_dot_identity_right(a, i, j, a.cols);
        lemma_products(a.at(i, j));
        lemma_add_zero(a.at(i, j));
    }
    lemma_grid_eq(product(a, e), a);
}

/// The products `(p[i, j] * q[j, k]) * r[k, l]`, by `j` and `k`.
pub open spec fn triples<T: Scalar>(p: Grid<T>, q: Grid<T>, r: Grid<T>, i: int, l: int) -> spec_fn(
    int,
    int,
) -> T {
    |j: int, k: int| p.at(i, j).mul_spec(q.at(j, k)).mul_spec(r.at(k, l))
}

proof fn lemma_left_first<T: Scalar>(p: Grid<T>, q: Grid<T>, r: Grid<T>, i: int, l: int)
    requires
        lawful::<T>(),
        p.wf(),
        q.wf(),
        r.wf(),
        p.cols == q.rows,
        q.cols == r.rows,
        0 <= i < p.rows,
        0 <= l < r.cols,
    ensures
        dot(product(p, q), r, i, l, q.cols) == total_of(
            totals_across(triples(p, q, r, i, l), p.cols),
            q.cols,
        ),
{
    let pq = product(p, q);
    let h = triples(p, q, r, i, l);
    lemma_product(p, q);
    lemma_dot_is_total(pq, r, i, l, q.cols);
    assert forall|k: int| 0 <= k < q.cols implies #[trigger] terms(pq, r, i, l)(k)
        == totals_across(h, p.cols)(k) by {
        assert(pq.has(i, k));
        lemma_dot_is_total(p, q, i, k, p.cols);
        let factor = r.at(k, l);
        assert forall|j: int| 0 <= j < p.cols implies #[trigger] across(h, k)(j) == factor.mul_spec(
            terms(p, q, i, k)(j),
        ) by {
            lemma_mul_commutes(factor, terms(p, q, i, k)(j));
        }
        lemma_total_of_multiples(factor, terms(p, q, i, k), across(h, k), p.cols);
        lemma_mul_commutes(factor, total_of(terms(p, q, i, k), p.cols));
    }
    lemma_total_of_equal_terms(terms(pq, r, i, l), totals_across(h, p.cols), q.cols);
}

proof fn lemma_right_first<T: Scalar>(p: Grid<T>, q: Grid<T>, r: Grid<T>, i: int, l: int)
    requires
        lawful::<T>(),
        p.wf(),
        q.wf(),
        r.wf(),
        p.cols == q.rows,
        q.cols == r.rows,
        0 <= i < p.rows,
        0 <= l < r.cols,
    ensures
        dot(p, product(q, r), i, l, p.cols) == total_of(
            totals_along(triples(p, q, r, i, l), q.cols),
            p.cols,
        ),
{
    let qr = product(q, r);
    let h = triples(p, q, r, i, l);
    lemma_product(q, r);
    lemma_dot_is_total(p, qr, i, l, p.cols);
    assert forall|j: int| 0 <= j < p.cols implies #[trigger] terms(p, qr, i, l)(j) == totals_along(
        h,
        q.cols,
    )(j) by {
        assert(qr.has(j, l));
        lemma_dot_is_total(q, r, j, l, q.cols);
        let factor = p.at(i, j);
        assert forall|k: int| 0 <= k < q.cols implies #[trigger] along(h, j)(k) == factor.mul_spec(
            terms(q, r, j, l)(k),
        ) by {
            lemma_mul_associates(factor, q.at(j, k), r.at(k, l));
        }
        lemma_total_of_multiples(factor, terms(q, r, j, l), along(h, j), q.cols);
    }
    lemma_total_of_equal_terms(terms(p, qr, i, l), totals_along(h, q.cols), p.cols);
}

/// Where the arithmetic is lawful, a product of three grids does not depend
/// on which two are multiplied first.
pub proof fn lemma_product_associates<T: Scalar>(p: Grid<T>, q: Grid<T>, r: Grid<T>)
    requires
        lawful::<T>(),
        p.wf(),
        q.wf(),
        r.wf(),
        p.cols == q.rows,
        q.cols == r.rows,
    ensures
        product(product(p, q), r) == product(p, product(q, r)),
{
    lemma_product(p, q);
    lemma_product(q, r);
    lemma_product(product(p, q), r);
    lemma_product(p, product(q, r));
    let left = product(product(p, q), r);
    let right = product(p, product(q, r));
    assert forall|i: int, l: int| left.has(i, l) implies left.at(i, l) == right.at(i, l) by {
        lemma_left_first(p, q, r, i, l);
        lemma_right_first(p, q, r, i, l);
        lemma_total_of_totals(triples(p, q, r, i, l), p.cols, q.cols);
    }
    lemma_grid_eq(left, right);
}

} // verus!
