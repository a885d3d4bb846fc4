//! What the factors of an elimination are where the arithmetic is lawful.

use crate::grid::lemma_grid_eq;
use crate::grid::lemma_with;
use crate::grid::Grid;
use crate::laws::algebra::lawful;
use crate::laws::algebra::lemma_add_zero;
use crate::laws::algebra::lemma_negation;
use crate::laws::algebra::lemma_products;
use crate::laws::algebra::lemma_quotient;
use crate::laws::algebra::lemma_total_of_equal_terms;
use crate::laws::algebra::lemma_total_of_shifted_terms;
use crate::laws::algebra::total_of;
use crate::laws::lemma_dot_identity_left;
use crate::laws::unmoved_left;
use crate::matrix::arithmetic::dot;
use crate::matrix::arithmetic::lemma_product;
use crate::matrix::arithmetic::product;
use crate::matrix::construction::identity_grid;
use crate::matrix::construction::lemma_identity;
use crate::matrix::decomposition::eliminated;
use crate::matrix::decomposition::lemma_reduced;
use crate::matrix::decomposition::lemma_row_pass_stuck;
use crate::matrix::decomposition::lemma_step_shaped;
use crate::matrix::decomposition::lu;
use crate::matrix::decomposition::reduced;
use crate::matrix::decomposition::row_pass;
use crate::matrix::decomposition::shaped;
use crate::matrix::decomposition::step;
use crate::matrix::decomposition::unit_lower;
use crate::matrix::decomposition::Factors;
use crate::scalar::one;
use crate::scalar::zero;
use crate::scalar::Scalar;
use vstd::prelude::*;
use vstd::std_specs::ops::AddSpec;
use vstd::std_specs::ops::DivSpec;
use vstd::std_specs::ops::MulSpec;
use vstd::std_specs::ops::NegSpec;

verus! {

/// Whether a grid holds zero below its diagonal.
pub open spec fn upper<T: Scalar>(u: Grid<T>) -> bool {
    forall|r: int, c: int| u.has(r, c) && c < r ==> #[trigger] u.at(r, c) == zero::<T>()
}

/// The products whose sum is element `(r, c)` of `l` times `u`.
pub open spec fn terms<T: Scalar>(l: Grid<T>, u: Grid<T>, r: int, c: int) -> spec_fn(int) -> T {
    |k: int| l.at(r, k).mul_spec(u.at(k, c))
}

/// Element `(r, c)` of a product is the sum of its terms.
pub proof fn lemma_dot_is_total<T: Scalar>(l: Grid<T>, u: Grid<T>, r: int, c: int, n: nat)
    ensures
        dot(l, u, r, c, n) == total_of(terms(l, u, r, c), n),
    decreases n,
{
    if n > 0 {
        lemma_dot_is_total(l, u, r, c, (n - 1) as nat);
    }
}

/// What holds of the factors before the step on row `i` and column `j`: they
/// are shaped; the lower factor holds zero below its diagonal from that step
/// on, in the order of the steps; the upper factor holds zero below its
/// diagonal before that step; and their product is `a`.
pub open spec fn on_course<T: Scalar>(a: Grid<T>, factors: Factors<T>, i: int, j: int) -> bool {
    let (l, u) = factors;
    &&& shaped(factors, a)
    &&& forall|r: int, c: int|
        l.has(r, c) && c < r && (r > i || (r == i && c >= j)) ==> #[trigger] l.at(r, c) == zero::<
            T,
        >()
    &&& forall|r: int, c: int|
        u.has(r, c) && c < r && (r < i || (r == i && c < j)) ==> #[trigger] u.at(r, c) == zero::<
            T,
        >()
    &&& forall|r: int, c: int| a.has(r, c) ==> #[trigger] dot(l, u, r, c, a.rows) == a.at(r, c)
}

proof fn lemma_step_zeroes<T: Scalar>(a: Grid<T>, factors: Factors<T>, i: int, j: int)
    requires
        lawful::<T>(),
        a.wf(),
        a.square(),
        0 <= j < i < a.rows,
        on_course(a, factors, i, j),
        step(factors, i, j) is Some,
    ensures
        forall|r: int, c: int|
            a.has(r, c) && c < r && (r < i || (r == i && c < j + 1)) ==> #[trigger] step(
                factors,
                i,
                j,
            ).unwrap().1.at(r, c) == zero::<T>(),
{
    let (l, u) = factors;
    let factor = u.at(i, j).div_spec(u.at(j, j));
    let u2 = reduced(u, i, j, factor);
    lemma_reduced(u, i, j, factor);
    assert forall|r: int, c: int|
        a.has(r, c) && c < r && (r < i || (r == i && c < j + 1)) implies #[trigger] u2.at(r, c)
        == zero::<T>() by {
        assert(u2.has(r, c));
        if r == i {
            if c == j {
                lemma_quotient(u.at(i, j), u.at(j, j));
                lemma_negation(u.at(i, j), u.at(i, j));
            } else {
                assert(u.at(i, c) == zero::<T>());
                assert(u.has(j, c));
                assert(u.at(j, c) == zero::<T>());
                lemma_products(factor);
                lemma_negation(zero::<T>(), zero::<T>());
            }
        } else {
            assert(u.at(r, c) == zero::<T>());
        }
    }
}

proof fn lemma_step_product<T: Scalar>(
    a: Grid<T>,
    factors: Factors<T>,
    i: int,
    j: int,
    r: int,
    c: int,
)
    requires
        lawful::<T>(),
        a.wf(),
        a.square(),
        0 <= j < i < a.rows,
        on_course(a, factors, i, j),
        step(factors, i, j) is Some,
        a.has(r, c),
    ensures
        dot(step(factors, i, j).unwrap().0, step(factors, i, j).unwrap().1, r, c, a.rows) == a.at(
            r,
            c,
        ),
{
    let (l, u) = factors;
    let factor = u.at(i, j).div_spec(u.at(j, j));
    let l2 = l.with(i, j, factor);
    let u2 = reduced(u, i, j, factor);
    let n = a.rows;
    lemma_with(l, i, j, factor);
    lemma_reduced(u, i, j, factor);
    let old_terms = terms(l, u, r, c);
    let new_terms = terms(l2, u2, r, c);
    lemma_dot_is_total(l, u, r, c, n);
    lemma_dot_is_total(l2, u2, r, c, n);
    assert(dot(l, u, r, c, n) == a.at(r, c));
    if r != i {
        assert forall|k: int| 0 <= k < n implies #[trigger] old_terms(k) == new_terms(k) by {
            assert(l.has(r, k));
            assert(l2.at(r, k) == l.at(r, k));
            assert(u2.has(k, c));
            if k == i {
                assert(l.at(r, i) == zero::<T>());
                lemma_products(u.at(i, c));
                lemma_products(u2.at(i, c));
            }
        }
        lemma_total_of_equal_terms(old_terms, new_terms, n);
    } else {
        let d = factor.mul_spec(u.at(j, c));
        assert forall|k: int| 0 <= k < n && k != j && k != i implies #[trigger] old_terms(k)
            == new_terms(k) by {
            assert(l.has(i, k));
            assert(l2.at(i, k) == l.at(i, k));
            assert(u2.has(k, c));
        }
        assert(new_terms(j) == old_terms(j).add_spec(d)) by {
            assert(l.has(i, j));
            assert(l.at(i, j) == zero::<T>());
            assert(u2.has(j, c));
            lemma_products(u.at(j, c));
            lemma_add_zero(d);
        }
        assert(new_terms(i) == old_terms(i).add_spec(d.neg_spec())) by {
            assert(l.has(i, i));
            assert(l.at(i, i) == one::<T>());
            assert(u2.has(i, c));
            lemma_products(u.at(i, c));
            lemma_products(u2.at(i, c));
            lemma_negation(u.at(i, c), d);
        }
        lemma_total_of_shifted_terms(old_terms, new_terms, j, i, d, n);
    }
}

proof fn lemma_step_on_course<T: Scalar>(a: Grid<T>, factors: Factors<T>, i: int, j: int)
    requires
        lawful::<T>(),
        a.wf(),
        a.square(),
        0 <= j < i < a.rows,
        on_course(a, factors, i, j),
        step(factors, i, j) is Some,
    ensures
        on_course(a, step(factors, i, j).unwrap(), i, j + 1),
{
    let (l, u) = factors;
    let factor = u.at(i, j).div_spec(u.at(j, j));
    let next = step(factors, i, j).unwrap();
    lemma_step_shaped(factors, a, i, j);
    lemma_with(l, i, j, factor);
    lemma_step_zeroes(a, factors, i, j);
    assert forall|r: int, c: int| a.has(r, c) implies #[trigger] dot(next.0, next.1, r, c, a.rows)
        == a.at(r, c) by {
        lemma_step_product(a, factors, i, j, r, c);
    }
}

proof fn lemma_row_pass_on_course<T: Scalar>(a: Grid<T>, start: Factors<T>, i: int, j: nat)
    requires
        lawful::<T>(),
        a.wf(),
        a.square(),
        j <= i < a.rows,
        on_course(a, start, i, 0),
        row_pass(Some(start), i, j) is Some,
    ensures
        on_course(a, row_pass(Some(start), i, j).unwrap(), i, j as int),
    decreases j,
{
    if j > 0 {
        lemma_row_pass_on_course(a, start, i, (j - 1) as nat);
        lemma_step_on_course(a, row_pass(Some(start), i, (j - 1) as nat).unwrap(), i, j - 1);
    }
}

proof fn lemma_eliminated_on_course<T: Scalar>(a: Grid<T>, i: nat)
    requires
        lawful::<T>(),
        a.wf(),
        a.square(),
        1 <= i <= a.rows,
        eliminated(a, i) is Some,
    ensures
        on_course(a, eliminated(a, i).unwrap(), i as int, 0),
    decreases i,
{
    let n = a.rows;
    if i <= 1 {
        let e = identity_grid::<T>(n, n);
        lemma_identity::<T>(n, n);
        assert forall|r: int, c: int| a.has(r, c) implies #[trigger] dot(e, a, r, c, n) == a.at(
            r,
            c,
        ) by {
            assert forall|k: int| 0 <= k < n implies unmoved_left(
                a.at(r, c),
                #[trigger] a.at(k, c),
            ) by {
                lemma_products(a.at(k, c));
                lemma_products(a.at(r, c));
                lemma_add_zero(zero::<T>());
                lemma_add_zero(a.at(r, c));
            }
            lemma_dot_identity_left(a, r, c, n);
            lemma_products(a.at(r, c));
            lemma_add_zero(a.at(r, c));
        }
    } else {
        let before = eliminated(a, (i - 1) as nat);
        if before is None {
            lemma_row_pass_stuck(before, i - 1, 0, (i - 1) as nat);
        }
        lemma_eliminated_on_course(a, (i - 1) as nat);
        lemma_row_pass_on_course(a, before.unwrap(), i - 1, (i - 1) as nat);
    }
}

/// Where the arithmetic is lawful and elimination gives factors of a square
/// grid, the lower factor holds one on its diagonal and zero above it, the
/// upper factor holds zero below its diagonal, and their product is the grid.
pub proof fn lemma_lu_reconstructs<T: Scalar>(a: Grid<T>)
    requires
        lawful::<T>(),
        a.wf(),
        a.square(),
        lu(a) is Some,
    ensures
        unit_lower(lu(a).unwrap().0),
        upper(lu(a).unwrap().1),
        product(lu(a).unwrap().0, lu(a).unwrap().1) == a,
{
    let (l, u) = lu(a).unwrap();
    lemma_eliminated_on_course(a, a.rows);
    let p = product(l, u);
    lemma_product(l, u);
    lemma_grid_eq(p, a);
}

} // verus!
