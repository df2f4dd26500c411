//! What the formulas of the tracer ask of the scalar type: arithmetic that
//! is defined on every value, as that of floating-point numbers is, and a
//! few functions built from it.

use crate::order::{lane_lt, obeys_order};
use core::ops::{Add, Div, Mul, Neg, Sub};
use vstd::prelude::*;
use vstd::std_specs::ops::{AddSpec, DivSpec, MulSpec, NegSpec, SubSpec};

verus! {

/// A scalar with the four operations, a negation and a comparison. Every
/// type that has them is a number.
pub trait Number: Copy + Add<Output = Self> + Sub<Output = Self> + Mul<Output = Self> + Div<
    Output = Self,
> + Neg<Output = Self> + PartialOrd {

}

impl<
    T: Copy + Add<Output = T> + Sub<Output = T> + Mul<Output = T> + Div<Output = T> + Neg<
        Output = T,
    > + PartialOrd,
> Number for T {

}

/// Whether the four operations and the negation of `T` are defined on all
/// values and follow their specification, and its comparison too. This
/// holds of a scalar such as a floating-point number, which answers a
/// division by zero with a value of its own; it does not hold of the
/// primitive integers, whose operations overflow.
pub open spec fn total_arithmetic<T: Number>() -> bool {
    &&& T::obeys_add_spec()
    &&& T::obeys_sub_spec()
    &&& T::obeys_mul_spec()
    &&& T::obeys_div_spec()
    &&& T::obeys_neg_spec()
    &&& obeys_order::<T, T>()
    &&& forall|a: T, b: T| #[trigger] a.add_req(b)
    &&& forall|a: T, b: T| #[trigger] a.sub_req(b)
    &&& forall|a: T, b: T| #[trigger] a.mul_req(b)
    &&& forall|a: T, b: T| #[trigger] a.div_req(b)
    &&& forall|a: T| #[trigger] a.neg_req()
}

/// Whether `f` can be asked for its answer on every value.
pub open spec fn answers_all<T, S: Fn(T) -> T>(f: &S) -> bool {
    forall|x: T| #[trigger] f.requires((x,))
}

/// Whether `f` gives on every value the answer that `g` names.
pub open spec fn computes<T, S: Fn(T) -> T>(f: &S, g: spec_fn(T) -> T) -> bool {
    forall|x: T, y: T| #[trigger] f.ensures((x,), y) ==> y == g(x)
}

/// The value without its sign: the negation of a value below `zero`, and
/// any other value as it is.
pub open spec fn magnitude_spec<T: Neg<Output = T> + PartialOrd>(value: T, zero: T) -> T {
    if lane_lt(value, zero) {
        value.neg_spec()
    } else {
        value
    }
}

/// The value without its sign.
pub fn magnitude<T: Copy + Neg<Output = T> + PartialOrd>(value: T, zero: T) -> (r: T)
    requires
        T::obeys_neg_spec(),
        obeys_order::<T, T>(),
        value.neg_req(),
    ensures
        r == magnitude_spec(value, zero),
{
    if value < zero {
        value.neg()
    } else {
        value
    }
}

/// `value` where it is below `limit`, and else `limit`.
pub open spec fn at_most_spec<T: PartialOrd>(value: T, limit: T) -> T {
    if lane_lt(value, limit) {
        value
    } else {
        limit
    }
}

/// The value held down to `limit`.
pub fn at_most<T: Copy + PartialOrd>(value: T, limit: T) -> (r: T)
    requires
        obeys_order::<T, T>(),
    ensures
        r == at_most_spec(value, limit),
{
    if value < limit {
        value
    } else {
        limit
    }
}

} // verus!

