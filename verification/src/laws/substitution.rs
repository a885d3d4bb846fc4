//! What the two substitutions solve where the arithmetic is lawful.

use crate::grid::lemma_grid_eq;
use crate::grid::Grid;
use crate::laws::algebra::lawful;
use crate::laws::algebra::lemma_add_cancels;
use crate::laws::algebra::lemma_add_zero;
use crate::laws::algebra::lemma_cancel;
use crate::laws::algebra::lemma_negated_factor;
use crate::laws::algebra::lemma_negation;
use crate::laws::algebra::lemma_products;
use crate::laws::algebra::lemma_quotient;
use crate::laws::algebra::lemma_total_of_zero_terms;
use crate::laws::factors::lemma_dot_is_total;
use crate::laws::factors::lemma_lu_reconstructs;
use crate::laws::factors::terms;
use crate::laws::factors::upper;
use crate::matrix::arithmetic::dot;
use crate::matrix::arithmetic::lemma_product;
use crate::matrix::arithmetic::product;
use crate::matrix::construction::identity_grid;
use crate::matrix::construction::lemma_identity;
use crate::matrix::decomposition::lemma_lu_shaped;
use crate::matrix::decomposition::lu;
use crate::matrix::decomposition::unit_lower;
use crate::matrix::inversion::backward;
use crate::matrix::inversion::backward_grid;
use crate::matrix::inversion::backward_sum;
use crate::matrix::inversion::forward;
use crate::matrix::inversion::forward_grid;
use crate::matrix::inversion::forward_sum;
use crate::matrix::inversion::inverse;
use crate::matrix::inversion::lemma_backward_grid;
use crate::matrix::inversion::lemma_forward_grid;
use crate::matrix::inversion::zero_on_diagonal;
use crate::scalar::one;
use crate::scalar::zero;
use crate::scalar::Scalar;
use vstd::prelude::*;
use vstd::std_specs::ops::AddSpec;
use vstd::std_specs::ops::MulSpec;

verus! {

/// Below the diagonal, the sum that gives element `(r, c)` of `l` times the
/// forward solution cancels, column by column, what forward substitution has
/// accumulated for that element.
proof fn lemma_forward_cancels<T: Scalar>(l: Grid<T>, r: nat, c: nat, k: nat)
    requires
        lawful::<T>(),
        l.wf(),
        l.square(),
        unit_lower(l),
        c < k <= r < l.rows,
    ensures
        dot(l, forward_grid(l), r as int, c as int, k).add_spec(forward_sum(l, r, c, k)) == zero::<
            T,
        >(),
    decreases k,
{
    let y = forward_grid(l);
    lemma_forward_grid(l);
    let t = terms(l, y, r as int, c as int);
    if k == c + 1 {
        lemma_dot_is_total(l, y, r as int, c as int, k);
        assert forall|p: int| 0 <= p < c implies #[trigger] t(p) == zero::<T>() by {
            assert(y.has(p, c as int));
            lemma_products(l.at(r as int, p));
        }
        lemma_total_of_zero_terms(t, 0, c);
        assert(y.has(c as int, c as int));
        lemma_products(l.at(r as int, c as int));
        lemma_add_zero(l.at(r as int, c as int));
        lemma_negation(l.at(r as int, c as int), l.at(r as int, c as int));
    } else {
        let before = (k - 1) as nat;
        lemma_forward_cancels(l, r, c, before);
        assert(y.has(before as int, c as int));
        let product = l.at(r as int, before as int).mul_spec(y.at(before as int, c as int));
        lemma_negated_factor(l.at(r as int, before as int), forward(l, before, c));
        lemma_cancel(
            dot(l, y, r as int, c as int, before),
            product,
            forward_sum(l, r, c, before),
        );
    }
}

/// Element `(r, c)` of `l` times the forward solution is that of the
/// identity.
proof fn lemma_forward_element<T: Scalar>(l: Grid<T>, r: nat, c: nat)
    requires
        lawful::<T>(),
        l.wf(),
        l.square(),
        unit_lower(l),
        r < l.rows,
        c < l.rows,
    ensures
        dot(l, forward_grid(l), r as int, c as int, l.rows) == if r == c {
            one::<T>()
        } else {
            zero::<T>()
        },
{
    let n = l.rows;
    let y = forward_grid(l);
    lemma_forward_grid(l);
    let t = terms(l, y, r as int, c as int);
    lemma_dot_is_total(l, y, r as int, c as int, n);
    assert forall|p: int| 0 <= p < n && (p < c || p > r) implies #[trigger] t(p) == zero::<T>() by {
        assert(l.has(r as int, p));
        assert(y.has(p, c as int));
        lemma_products(l.at(r as int, p));
        lemma_products(y.at(p, c as int));
    }
    if r < c {
        lemma_total_of_zero_terms(t, 0, n);
    } else if r == c {
        lemma_total_of_zero_terms(t, 0, c);
        assert(l.has(c as int, c as int));
        assert(y.has(c as int, c as int));
        lemma_products(one::<T>());
        lemma_add_zero(one::<T>());
        lemma_total_of_zero_terms(t, c + 1, n);
    } else {
        lemma_forward_cancels(l, r, c, r);
        lemma_dot_is_total(l, y, r as int, c as int, r);
        assert(l.has(r as int, r as int));
        assert(y.has(r as int, c as int));
        lemma_products(y.at(r as int, c as int));
        lemma_total_of_zero_terms(t, r + 1, n);
    }
}

/// Forward substitution solves `L * Y = I`: where the arithmetic is lawful
/// and `l` is square with one on its diagonal and zero above it, `l` times
/// its forward solution is the identity.
pub proof fn lemma_forward_solves<T: Scalar>(l: Grid<T>)
    requires
        lawful::<T>(),
        l.wf(),
        l.square(),
        unit_lower(l),
    ensures
        product(l, forward_grid(l)) == identity_grid::<T>(l.rows, l.rows),
{
    let n = l.rows;
    let y = forward_grid(l);
    let p = product(l, y);
    lemma_forward_grid(l);
    lemma_product(l, y);
    lemma_identity::<T>(n, n);
    assert forall|i: int, j: int| p.has(i, j) implies p.at(i, j) == identity_grid::<T>(n, n).at(
        i,
        j,
    ) by {
        lemma_forward_element(l, i as nat, j as nat);
    }
    lemma_grid_eq(p, identity_grid::<T>(n, n));
}

/// Right of the diagonal, the sum that gives element `(r, c)` of `u` times
/// the backward solution and what back substitution has accumulated for that
/// element add up, column by column, to what they add up to at the diagonal.
proof fn lemma_backward_balances<T: Scalar>(u: Grid<T>, y: Grid<T>, r: nat, c: nat, k: nat)
    requires
        lawful::<T>(),
        u.wf(),
        u.square(),
        upper(u),
        !zero_on_diagonal(u),
        y.wf(),
        y.same_shape(u),
        r < k <= u.rows,
        c < u.rows,
    ensures
        dot(u, backward_grid(u, y), r as int, c as int, k).add_spec(backward_sum(u, y, r, c, k))
            == backward_sum(u, y, r, c, u.rows).add_spec(y.at(r as int, c as int)),
    decreases k,
{
    let n = u.rows;
    let x = backward_grid(u, y);
    lemma_backward_grid(u, y);
    let t = terms(u, x, r as int, c as int);
    if k == r + 1 {
        lemma_dot_is_total(u, x, r as int, c as int, k);
        assert forall|p: int| 0 <= p < r implies #[trigger] t(p) == zero::<T>() by {
            assert(u.has(r as int, p));
            lemma_products(x.at(p, c as int));
        }
        lemma_total_of_zero_terms(t, 0, r);
        assert(x.has(r as int, c as int));
        assert(u.has(r as int, r as int));
        lemma_quotient(backward_sum(u, y, r, c, n), u.at(r as int, r as int));
        lemma_add_zero(backward_sum(u, y, r, c, n));
    } else {
        let before = (k - 1) as nat;
        lemma_backward_balances(u, y, r, c, before);
        assert(x.has(before as int, c as int));
        let product = u.at(r as int, before as int).mul_spec(x.at(before as int, c as int));
        lemma_negated_factor(u.at(r as int, before as int), backward(u, y, before, c));
        lemma_cancel(
            dot(u, x, r as int, c as int, before),
            product,
            backward_sum(u, y, r, c, before),
        );
    }
}

/// Back substitution solves `U * X = Y`: where the arithmetic is lawful and
/// `u` is square with zero below its diagonal and no zero on it, `u` times
/// its backward solution for `y` is `y`.
pub proof fn lemma_backward_solves<T: Scalar>(u: Grid<T>, y: Grid<T>)
    requires
        lawful::<T>(),
        u.wf(),
        u.square(),
        upper(u),
        !zero_on_diagonal(u),
        y.wf(),
        y.same_shape(u),
    ensures
        product(u, backward_grid(u, y)) == y,
{
    let n = u.rows;
    let x = backward_grid(u, y);
    let p = product(u, x);
    lemma_backward_grid(u, y);
    lemma_product(u, x);
    assert forall|i: int, j: int| p.has(i, j) implies p.at(i, j) == y.at(i, j) by {
        lemma_backward_balances(u, y, i as nat, j as nat, n);
        lemma_add_cancels(
            dot(u, x, i, j, n),
            backward_sum(u, y, i as nat, j as nat, n),
            y.at(i, j),
        );
    }
    lemma_grid_eq(p, y);
}

/// Where the arithmetic is lawful and the inversion of a square grid `a`
/// gives `x`, the factors `l` and `u` of `a` and the forward solution `y` of
/// `l` satisfy `l * u = a`, `l * y = I` and `u * x = y`.
pub proof fn lemma_inverse_solves<T: Scalar>(a: Grid<T>)
    requires
        lawful::<T>(),
        a.wf(),
        a.square(),
        inverse(a) is Some,
    ensures
        lu(a) matches Some((l, u)) && {
            &&& product(l, u) == a
            &&& product(l, forward_grid(l)) == identity_grid::<T>(a.rows, a.rows)
            &&& product(u, inverse(a).unwrap()) == forward_grid(l)
        },
{
    let (l, u) = lu(a).unwrap();
    lemma_lu_shaped(a);
    lemma_lu_reconstructs(a);
    lemma_forward_solves(l);
    let y = forward_grid(l);
    lemma_forward_grid(l);
    lemma_backward_solves(u, y);
}

} // verus!
