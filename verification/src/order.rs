//! Lane comparisons, stated over the comparison that the scalar type itself
//! defines. The statements bind only for types whose comparison operators
//! follow their specification (all primitive integers do).

use core::cmp::Ordering;
use vstd::prelude::*;
use vstd::std_specs::cmp::PartialEqSpec;
use vstd::std_specs::cmp::PartialOrdSpec;

verus! {

/// Whether `==` between `T` and `U` is the relation that [`lane_eq`] names.
pub open spec fn obeys_eq<T: PartialEq<U>, U>() -> bool {
    T::obeys_eq_spec()
}

/// Whether `<`, `<=`, `>` and `>=` between `T` and `U` are the relations
/// that [`lane_lt`], [`lane_le`], [`lane_gt`] and [`lane_ge`] name.
pub open spec fn obeys_order<T: PartialOrd<U>, U>() -> bool {
    T::obeys_partial_cmp_spec()
}

pub open spec fn lane_eq<T: PartialEq<U>, U>(a: T, b: U) -> bool {
    a.eq_spec(&b)
}

pub open spec fn lane_lt<T: PartialOrd<U>, U>(a: T, b: U) -> bool {
    a.partial_cmp_spec(&b) == Some(Ordering::Less)
}

pub open spec fn lane_le<T: PartialOrd<U>, U>(a: T, b: U) -> bool {
    a.partial_cmp_spec(&b) matches Some(Ordering::Less | Ordering::Equal)
}

pub open spec fn lane_gt<T: PartialOrd<U>, U>(a: T, b: U) -> bool {
    a.partial_cmp_spec(&b) == Some(Ordering::Greater)
}

pub open spec fn lane_ge<T: PartialOrd<U>, U>(a: T, b: U) -> bool {
    a.partial_cmp_spec(&b) matches Some(Ordering::Greater | Ordering::Equal)
}

/// How `a` stands to `b`, if the two compare.
pub open spec fn lane_cmp<T: PartialOrd<U>, U>(a: T, b: U) -> Option<Ordering> {
    a.partial_cmp_spec(&b)
}

} // verus!
