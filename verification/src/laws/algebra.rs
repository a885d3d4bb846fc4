//! The laws of arithmetic that make elimination exact, and sums under them.

use crate::scalar::is_zero;
use crate::scalar::one;
use crate::scalar::zero;
use crate::scalar::Scalar;
use vstd::prelude::*;
use vstd::std_specs::ops::AddSpec;
use vstd::std_specs::ops::DivSpec;
use vstd::std_specs::ops::MulSpec;
use vstd::std_specs::ops::NegSpec;
use vstd::std_specs::ops::SubSpec;

verus! {

/// Addition is commutative.
#[verifier::opaque]
pub open spec fn addition_commutes<T: Scalar>() -> bool {
    forall|x: T, y: T| #[trigger] x.add_spec(y) == y.add_spec(x)
}

/// Addition is associative.
#[verifier::opaque]
pub open spec fn addition_associates<T: Scalar>() -> bool {
    forall|x: T, y: T, z: T| #[trigger] x.add_spec(y).add_spec(z) == x.add_spec(y.add_spec(z))
}

/// Zero added changes nothing.
#[verifier::opaque]
pub open spec fn zero_adds_nothing<T: Scalar>() -> bool {
    forall|x: T| #[trigger] x.add_spec(zero::<T>()) == x
}

/// To subtract is to add the negation.
#[verifier::opaque]
pub open spec fn subtraction_negates<T: Scalar>() -> bool {
    forall|x: T, y: T| #[trigger] x.sub_spec(y) == x.add_spec(y.neg_spec())
}

/// An element and its negation add up to zero.
#[verifier::opaque]
pub open spec fn negation_cancels<T: Scalar>() -> bool {
    forall|x: T| #[trigger] x.add_spec(x.neg_spec()) == zero::<T>()
}

/// The negation of a factor is the negation of the product.
#[verifier::opaque]
pub open spec fn negation_leaves_products<T: Scalar>() -> bool {
    forall|x: T, y: T| #[trigger] x.neg_spec().mul_spec(y) == x.mul_spec(y).neg_spec()
}

/// Multiplication is commutative.
#[verifier::opaque]
pub open spec fn multiplication_commutes<T: Scalar>() -> bool {
    forall|x: T, y: T| #[trigger] x.mul_spec(y) == y.mul_spec(x)
}

/// Multiplication is associative.
#[verifier::opaque]
pub open spec fn multiplication_associates<T: Scalar>() -> bool {
    forall|x: T, y: T, z: T| #[trigger] x.mul_spec(y).mul_spec(z) == x.mul_spec(y.mul_spec(z))
}

/// Multiplication distributes over addition.
#[verifier::opaque]
pub open spec fn multiplication_distributes<T: Scalar>() -> bool {
    forall|x: T, y: T, z: T| #[trigger]
        x.mul_spec(y.add_spec(z)) == x.mul_spec(y).add_spec(x.mul_spec(z))
}

/// Zero times anything is zero.
#[verifier::opaque]
pub open spec fn zero_annihilates<T: Scalar>() -> bool {
    forall|x: T| #[trigger] zero::<T>().mul_spec(x) == zero::<T>()
}

/// One times an element is the element.
#[verifier::opaque]
pub open spec fn one_multiplies_nothing<T: Scalar>() -> bool {
    forall|x: T| #[trigger] one::<T>().mul_spec(x) == x
}

/// A quotient by what is not zero, times the divisor, is the dividend.
#[verifier::opaque]
pub open spec fn division_undoes<T: Scalar>() -> bool {
    forall|x: T, p: T| !is_zero(p) ==> #[trigger] x.div_spec(p).mul_spec(p) == x
}

/// The operators of `T` follow the laws of a field, as far as elimination and
/// substitution rest on them.
pub open spec fn lawful<T: Scalar>() -> bool {
    &&& addition_commutes::<T>()
    &&& addition_associates::<T>()
    &&& zero_adds_nothing::<T>()
    &&& subtraction_negates::<T>()
    &&& negation_cancels::<T>()
    &&& negation_leaves_products::<T>()
    &&& multiplication_commutes::<T>()
    &&& multiplication_associates::<T>()
    &&& multiplication_distributes::<T>()
    &&& zero_annihilates::<T>()
    &&& one_multiplies_nothing::<T>()
    &&& division_undoes::<T>()
}

/// Addition is commutative.
pub proof fn lemma_add_commutes<T: Scalar>(x: T, y: T)
    requires
        lawful::<T>(),
    ensures
        x.add_spec(y) == y.add_spec(x),
{
    reveal(addition_commutes);
}

/// Addition is associative.
pub proof fn lemma_add_associates<T: Scalar>(x: T, y: T, z: T)
    requires
        lawful::<T>(),
    ensures
        x.add_spec(y).add_spec(z) == x.add_spec(y.add_spec(z)),
{
    reveal(addition_associates);
}

/// Multiplication is commutative.
pub proof fn lemma_mul_commutes<T: Scalar>(x: T, y: T)
    requires
        lawful::<T>(),
    ensures
        x.mul_spec(y) == y.mul_spec(x),
{
    reveal(multiplication_commutes);
}

/// Multiplication is associative.
pub proof fn lemma_mul_associates<T: Scalar>(x: T, y: T, z: T)
    requires
        lawful::<T>(),
    ensures
        x.mul_spec(y).mul_spec(z) == x.mul_spec(y.mul_spec(z)),
{
    reveal(multiplication_associates);
}

/// Multiplication distributes over addition, from either side.
pub proof fn lemma_distributes<T: Scalar>(x: T, y: T, z: T)
    requires
        lawful::<T>(),
    ensures
        x.mul_spec(y.add_spec(z)) == x.mul_spec(y).add_spec(x.mul_spec(z)),
        y.add_spec(z).mul_spec(x) == y.mul_spec(x).add_spec(z.mul_spec(x)),
{
    reveal(multiplication_distributes);
    reveal(multiplication_commutes);
}

/// Two sums added up are the sums of their first and of their second terms
/// added up.
pub proof fn lemma_add_interchanges<T: Scalar>(a: T, b: T, c: T, d: T)
    requires
        lawful::<T>(),
    ensures
        a.add_spec(b).add_spec(c.add_spec(d)) == a.add_spec(c).add_spec(b.add_spec(d)),
{
    // (a + b) + (c + d) == a + (b + (c + d)) == a + ((b + c) + d)
    lemma_add_associates(a, b, c.add_spec(d));
    lemma_add_associates(b, c, d);
    // == a + ((c + b) + d) == a + (c + (b + d)) == (a + c) + (b + d)
    lemma_add_commutes(b, c);
    lemma_add_associates(c, b, d);
    lemma_add_associates(a, c, b.add_spec(d));
}

/// Zero added, on either side, changes nothing.
pub proof fn lemma_add_zero<T: Scalar>(x: T)
    requires
        lawful::<T>(),
    ensures
        x.add_spec(zero::<T>()) == x,
        zero::<T>().add_spec(x) == x,
{
    reveal(zero_adds_nothing);
    reveal(addition_commutes);
}

/// To subtract is to add the negation, and an element and its negation add
/// up to zero.
pub proof fn lemma_negation<T: Scalar>(x: T, y: T)
    requires
        lawful::<T>(),
    ensures
        x.sub_spec(y) == x.add_spec(y.neg_spec()),
        y.add_spec(y.neg_spec()) == zero::<T>(),
        x.sub_spec(x) == zero::<T>(),
{
    reveal(subtraction_negates);
    reveal(negation_cancels);
}

/// Zero times anything is zero, and one times an element is the element,
/// from either side.
pub proof fn lemma_products<T: Scalar>(x: T)
    requires
        lawful::<T>(),
    ensures
        zero::<T>().mul_spec(x) == zero::<T>(),
        x.mul_spec(zero::<T>()) == zero::<T>(),
        one::<T>().mul_spec(x) == x,
        x.mul_spec(one::<T>()) == x,
{
    reveal(zero_annihilates);
    reveal(one_multiplies_nothing);
    reveal(multiplication_commutes);
}

/// The negation of a factor is the negation of the product.
pub proof fn lemma_negated_factor<T: Scalar>(x: T, y: T)
    requires
        lawful::<T>(),
    ensures
        x.neg_spec().mul_spec(y) == x.mul_spec(y).neg_spec(),
{
    reveal(negation_leaves_products);
}

/// A quotient by what is not zero, times the divisor, is the dividend, from
/// either side.
pub proof fn lemma_quotient<T: Scalar>(x: T, p: T)
    requires
        lawful::<T>(),
        !is_zero(p),
    ensures
        x.div_spec(p).mul_spec(p) == x,
        p.mul_spec(x.div_spec(p)) == x,
{
    reveal(division_undoes);
    reveal(multiplication_commutes);
}

/// Adding `t` to one sum and its negation to another leaves the sum of both
/// as it was.
pub proof fn lemma_cancel<T: Scalar>(a: T, t: T, b: T)
    requires
        lawful::<T>(),
    ensures
        a.add_spec(t).add_spec(b.add_spec(t.neg_spec())) == a.add_spec(b),
{
    let back = t.neg_spec();
    // (a + t) + (b + -t) == a + (t + (b + -t))
    lemma_add_associates(a, t, b.add_spec(back));
    // t + (b + -t) == (b + -t) + t == b + (-t + t) == b + (t + -t) == b
    lemma_add_commutes(t, b.add_spec(back));
    lemma_add_associates(b, back, t);
    lemma_add_commutes(back, t);
    lemma_negation(t, t);
    lemma_add_zero(b);
}

/// What is added to both sides of an equation can be taken away.
pub proof fn lemma_add_cancels<T: Scalar>(a: T, e: T, y: T)
    requires
        lawful::<T>(),
        a.add_spec(e) == e.add_spec(y),
    ensures
        a == y,
{
    let back = e.neg_spec();
    // a == a + (e + -e) == (a + e) + -e
    lemma_add_zero(a);
    lemma_negation(e, e);
    lemma_add_associates(a, e, back);
    // (e + y) + -e == (y + e) + -e == y + (e + -e) == y
    lemma_add_commutes(e, y);
    lemma_add_associates(y, e, back);
    lemma_add_zero(y);
}

/// What is added on the right of both sides of an equation can be taken
/// away.
pub proof fn lemma_add_cancels_right<T: Scalar>(a: T, b: T, t: T)
    requires
        lawful::<T>(),
        a.add_spec(t) == b.add_spec(t),
    ensures
        a == b,
{
    lemma_add_commutes(b, t);
    lemma_add_cancels(a, t, b);
}

/// What is added on the left of both sides of an equation can be taken away.
pub proof fn lemma_add_cancels_left<T: Scalar>(t: T, a: T, b: T)
    requires
        lawful::<T>(),
        t.add_spec(a) == t.add_spec(b),
    ensures
        a == b,
{
    lemma_add_commutes(t, a);
    lemma_add_cancels(a, t, b);
}

/// A factor that is not zero, on the left of both sides of an equation, can
/// be taken away.
pub proof fn lemma_mul_cancels<T: Scalar>(p: T, z: T, w: T)
    requires
        lawful::<T>(),
        !is_zero(p),
        p.mul_spec(z) == p.mul_spec(w),
    ensures
        z == w,
{
    let q = one::<T>().div_spec(p);
    lemma_quotient(one::<T>(), p);
    // z == 1 * z == (q * p) * z == q * (p * z)
    lemma_products(z);
    lemma_mul_associates(q, p, z);
    // q * (p * w) == (q * p) * w == 1 * w == w
    lemma_mul_associates(q, p, w);
    lemma_products(w);
}

/// A sum does not change over terms that are zero.
pub proof fn lemma_total_of_zero_terms<T: Scalar>(term: spec_fn(int) -> T, from: nat, to: nat)
    requires
        lawful::<T>(),
        from <= to,
        forall|k: int| from <= k < to ==> #[trigger] term(k) == zero::<T>(),
    ensures
        total_of(term, to) == total_of(term, from),
    decreases to,
{
    if from < to {
        lemma_total_of_zero_terms(term, from, (to - 1) as nat);
        lemma_add_zero(total_of(term, (to - 1) as nat));
    }
}

/// The sum, accumulated from zero in increasing `k`, of `term(k)` for `k`
/// below `n`.
pub open spec fn total_of<T: Scalar>(term: spec_fn(int) -> T, n: nat) -> T
    decreases n,
{
    if n == 0 {
        zero::<T>()
    } else {
        total_of(term, (n - 1) as nat).add_spec(term(n - 1))
    }
}

/// Sums of equal terms are equal.
pub proof fn lemma_total_of_equal_terms<T: Scalar>(
    f: spec_fn(int) -> T,
    g: spec_fn(int) -> T,
    n: nat,
)
    requires
        forall|k: int| 0 <= k < n ==> #[trigger] f(k) == g(k),
    ensures
        total_of(f, n) == total_of(g, n),
    decreases n,
{
    if n > 0 {
        lemma_total_of_equal_terms(f, g, (n - 1) as nat);
    }
}

/// A sum does not change when one of its terms grows by `d` and a later one
/// by the negation of `d`.
pub proof fn lemma_total_of_shifted_terms<T: Scalar>(
    f: spec_fn(int) -> T,
    g: spec_fn(int) -> T,
    first: int,
    second: int,
    d: T,
    n: nat,
)
    requires
        lawful::<T>(),
        0 <= first < second,
        forall|k: int| 0 <= k < n && k != first && k != second ==> #[trigger] f(k) == g(k),
        first < n ==> g(first) == f(first).add_spec(d),
        second < n ==> g(second) == f(second).add_spec(d.neg_spec()),
    ensures
        total_of(g, n) == if first < n <= second {
            total_of(f, n).add_spec(d)
        } else {
            total_of(f, n)
        },
    decreases n,
{
    if n > 0 {
        let m = (n - 1) as nat;
        lemma_total_of_shifted_terms(f, g, first, second, d, m);
        let before = total_of(f, m);
        let t = f(n - 1);
        if n - 1 == first {
            lemma_add_associates(before, t, d);
        } else if first < n - 1 < second {
            // (before + d) + t == (before + t) + d
            lemma_add_associates(before, d, t);
            lemma_add_commutes(d, t);
            lemma_add_associates(before, t, d);
        } else if n - 1 == second {
            // (before + d) + (t + -d) == before + t
            let back = d.neg_spec();
            lemma_add_associates(before, d, t.add_spec(back));
            lemma_add_commutes(t, back);
            lemma_add_associates(d, back, t);
            lemma_negation(d, d);
            lemma_add_zero(t);
        }
    }
}

/// The sum of terms that are sums is the sum of the first terms plus the sum
/// of the second terms.
pub proof fn lemma_total_of_sums<T: Scalar>(
    f: spec_fn(int) -> T,
    g: spec_fn(int) -> T,
    both: spec_fn(int) -> T,
    n: nat,
)
    requires
        lawful::<T>(),
        forall|k: int| 0 <= k < n ==> #[trigger] both(k) == f(k).add_spec(g(k)),
    ensures
        total_of(both, n) == total_of(f, n).add_spec(total_of(g, n)),
    decreases n,
{
    if n == 0 {
        lemma_add_zero(zero::<T>());
    } else {
        let m = (n - 1) as nat;
        lemma_total_of_sums(f, g, both, m);
        lemma_add_interchanges(total_of(f, m), total_of(g, m), f(n - 1), g(n - 1));
    }
}

/// The sum of terms that are each `factor` times a term is `factor` times the
/// sum of those terms.
pub proof fn lemma_total_of_multiples<T: Scalar>(
    factor: T,
    g: spec_fn(int) -> T,
    multiples: spec_fn(int) -> T,
    n: nat,
)
    requires
        lawful::<T>(),
        forall|k: int| 0 <= k < n ==> #[trigger] multiples(k) == factor.mul_spec(g(k)),
    ensures
        total_of(multiples, n) == factor.mul_spec(total_of(g, n)),
    decreases n,
{
    if n == 0 {
        lemma_products(factor);
    } else {
        let m = (n - 1) as nat;
        lemma_total_of_multiples(factor, g, multiples, m);
        lemma_distributes(factor, total_of(g, m), g(n - 1));
    }
}

/// The terms `h(j, k)` for a fixed `k`.
pub open spec fn across<T: Scalar>(h: spec_fn(int, int) -> T, k: int) -> spec_fn(int) -> T {
    |j: int| h(j, k)
}

/// The terms `h(j, k)` for a fixed `j`.
pub open spec fn along<T: Scalar>(h: spec_fn(int, int) -> T, j: int) -> spec_fn(int) -> T {
    |k: int| h(j, k)
}

/// For each `k`, the sum of `h(j, k)` over `j` below `n`.
pub open spec fn totals_across<T: Scalar>(h: spec_fn(int, int) -> T, n: nat) -> spec_fn(int) -> T {
    |k: int| total_of(across(h, k), n)
}

/// For each `j`, the sum of `h(j, k)` over `k` below `m`.
pub open spec fn totals_along<T: Scalar>(h: spec_fn(int, int) -> T, m: nat) -> spec_fn(int) -> T {
    |j: int| total_of(along(h, j), m)
}

/// A sum over two indices does not depend on which of them is summed first.
pub proof fn lemma_total_of_totals<T: Scalar>(h: spec_fn(int, int) -> T, n: nat, m: nat)
    requires
        lawful::<T>(),
    ensures
        total_of(totals_across(h, n), m) == total_of(totals_along(h, m), n),
    decreases m,
{
    if m == 0 {
        assert forall|j: int| 0 <= j < n implies #[trigger] totals_along(h, 0)(j) == zero::<T>() by {
        }
        lemma_total_of_zero_terms(totals_along(h, 0), 0, n);
    } else {
        let before = (m - 1) as nat;
        lemma_total_of_totals(h, n, before);
        assert forall|j: int| 0 <= j < n implies #[trigger] totals_along(h, m)(j) == totals_along(
            h,
            before,
        )(j).add_spec(across(h, m - 1)(j)) by {
        }
        lemma_total_of_sums(totals_along(h, before), across(h, m - 1), totals_along(h, m), n);
    }
}

/// Two equal sums whose terms agree from `from` on are equal up to `from`.
pub proof fn lemma_total_of_equal_tails<T: Scalar>(
    f: spec_fn(int) -> T,
    g: spec_fn(int) -> T,
    from: nat,
    n: nat,
)
    requires
        lawful::<T>(),
        from <= n,
        total_of(f, n) == total_of(g, n),
        forall|k: int| from <= k < n ==> #[trigger] f(k) == g(k),
    ensures
        total_of(f, from) == total_of(g, from),
    decreases n,
{
    if from < n {
        let m = (n - 1) as nat;
        lemma_add_cancels_right(total_of(f, m), total_of(g, m), f(n - 1));
        lemma_total_of_equal_tails(f, g, from, m);
    }
}

} // verus!
