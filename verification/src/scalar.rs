//! What the matrix asks of its element type: the standard arithmetic
//! operators, equality, and a conversion from `i8` that supplies zero and one.

use core::ops::Add;
use core::ops::Div;
use core::ops::Mul;
use core::ops::Neg;
use core::ops::Sub;
use vstd::prelude::*;
use vstd::std_specs::cmp::PartialEqSpec;
use vstd::std_specs::convert::FromSpec;
use vstd::std_specs::ops::AddSpec;
use vstd::std_specs::ops::DivSpec;
use vstd::std_specs::ops::MulSpec;
use vstd::std_specs::ops::NegSpec;
use vstd::std_specs::ops::SubSpec;

verus! {

/// An element type: copyable, comparable, convertible from `i8`, and closed
/// under `+`, `-`, `*`, `/` and unary `-`. Every type with these has it.
pub trait Scalar: Copy + PartialEq + From<i8> + Add<Output = Self> + Sub<Output = Self> + Mul<
    Output = Self,
> + Div<Output = Self> + Neg<Output = Self> {

}

impl<
    T: Copy + PartialEq + From<i8> + Add<Output = T> + Sub<Output = T> + Mul<Output = T> + Div<
        Output = T,
    > + Neg<Output = T>,
> Scalar for T {

}

/// The element that stands for zero.
pub open spec fn zero<T: Scalar>() -> T {
    T::from_spec(0i8)
}

/// The element that stands for one.
pub open spec fn one<T: Scalar>() -> T {
    T::from_spec(1i8)
}

/// Whether `x` compares equal to zero.
pub open spec fn is_zero<T: Scalar>(x: T) -> bool {
    x.eq_spec(&zero::<T>())
}

/// Every operator of `T` is defined on all operands, so none can fail.
pub open spec fn total<T: Scalar>() -> bool {
    &&& forall|x: T, y: T| #[trigger] x.add_req(y)
    &&& forall|x: T, y: T| #[trigger] x.sub_req(y)
    &&& forall|x: T, y: T| #[trigger] x.mul_req(y)
    &&& forall|x: T, y: T| #[trigger] x.div_req(y)
    &&& forall|x: T| #[trigger] x.neg_req()
}

/// Every operator of `T`, its equality and its conversion from `i8` return
/// what their specification functions say.
pub open spec fn exact<T: Scalar>() -> bool {
    &&& T::obeys_add_spec()
    &&& T::obeys_sub_spec()
    &&& T::obeys_mul_spec()
    &&& T::obeys_div_spec()
    &&& T::obeys_neg_spec()
    &&& T::obeys_eq_spec()
    &&& <T as FromSpec<i8>>::obeys_from_spec()
}

/// The operators cannot fail in a computation: either each is defined on all
/// operands, or each returns what its specification function says and
/// `defined` holds, which says of the computation that each is defined on the
/// operands that arise in it.
pub open spec fn safe<T: Scalar>(defined: bool) -> bool {
    total::<T>() || (exact::<T>() && defined)
}

} // verus!
