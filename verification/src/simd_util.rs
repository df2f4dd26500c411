//! Masked selection, bound checks and a batch of optional references.

use crate::order::{lane_ge, lane_gt, lane_le, lane_lt, obeys_order};
use crate::packed::{
    is_canonical, lemma_packed_len, mask_word, mask_words, select_lanes, Mask,
    Packed, Scaler,
};
use core::ops::{Bound, Neg, Range};
use vstd::prelude::*;
use vstd::std_specs::ops::{BitAndSpec, NegSpec};

verus! {

broadcast use lemma_packed_len;

/// `std::ops::Bound`, one end of a range: a value that belongs to the
/// range, a value that does not, or no limit. Its three variants are read
/// from its definition; nothing else is claimed of it.
#[verifier::external_type_specification]
#[verifier::reject_recursive_types(T)]
pub struct ExBound<T>(Bound<T>);

/// Lane by lane: the lane of `other` where `mask` selects it, else the lane
/// of `base`.
pub fn masked_select<T, M, const N: usize>(
    base: Packed<T, N>,
    other: Packed<T, N>,
    mask: Packed<M, N>,
) -> (r: Packed<T, N>) where T: Scaler<MaskType = M>, M: Mask
    ensures
        r@ == select_lanes(base@, other@, mask@),
{
    base.select_masked(other, mask)
}

/// Overwrites the lanes of `base` that `mask` selects by those of `other`.
pub fn masked_assign<T, M, const N: usize>(
    base: &mut Packed<T, N>,
    other: Packed<T, N>,
    mask: Packed<M, N>,
) where T: Scaler<MaskType = M>, M: Mask
    ensures
        final(base)@ == select_lanes(old(base)@, other@, mask@),
{
    *base = masked_select(*base, other, mask);
}

/// Which end of a range a bound limits.
pub enum BoundType {
    UPPER,
    LOWER,
}

/// Whether `value` respects `bound`, taken as the upper or the lower end of
/// a range. No bound is respected by every value.
pub open spec fn within_bound<T: PartialOrd>(bound_type: BoundType, value: T, bound: Bound<&T>) -> bool {
    match (bound_type, bound) {
        (BoundType::UPPER, Bound::Included(limit)) => lane_le(value, *limit),
        (BoundType::UPPER, Bound::Excluded(limit)) => lane_lt(value, *limit),
        (BoundType::LOWER, Bound::Included(limit)) => lane_ge(value, *limit),
        (BoundType::LOWER, Bound::Excluded(limit)) => lane_gt(value, *limit),
        (_, Bound::Unbounded) => true,
    }
}

/// The mask of the lanes of `values` that respect `bound`.
pub fn simd_bound_check<T, M, const N: usize>(
    bound_type: BoundType,
    values: &Packed<T, N>,
    bound: Bound<&T>,
) -> (r: Packed<M, N>) where T: Scaler<MaskType = M> + PartialOrd, M: Mask
    ensures
        r.is_mask(),
        obeys_order::<T, T>() || bound is Unbounded ==> r@ == mask_words::<M>(
            Seq::new(N as nat, |i: int| within_bound(bound_type, values@[i], bound)),
        ),
{
    let mut r = Packed::<M, N>::broadcast_bool(true);
    match bound {
        Bound::Unbounded => {},
        Bound::Included(limit) => {
            let mut i: usize = 0;
            while i < N
                invariant
                    i <= N,
                    r@.len() == N,
                    bound == Bound::Included(limit),
                    forall|j: int| 0 <= j < N ==> is_canonical(#[trigger] r@[j]),
                    obeys_order::<T, T>() ==> forall|j: int|
                        0 <= j < i ==> r@[j] == mask_word::<M>(
                            within_bound(bound_type, values@[j], bound),
                        ),
                decreases N - i,
            {
                let lane = values.at(i);
                let ok = match bound_type {
                    BoundType::UPPER => lane <= *limit,
                    BoundType::LOWER => lane >= *limit,
                };
                r.update(i, M::mask_from_bool(ok));
                i += 1;
            }
        },
        Bound::Excluded(limit) => {
            let mut i: usize = 0;
            while i < N
                invariant
                    i <= N,
                    r@.len() == N,
                    bound == Bound::Excluded(limit),
                    forall|j: int| 0 <= j < N ==> is_canonical(#[trigger] r@[j]),
                    obeys_order::<T, T>() ==> forall|j: int|
                        0 <= j < i ==> r@[j] == mask_word::<M>(
                            within_bound(bound_type, values@[j], bound),
                        ),
                decreases N - i,
            {
                let lane = values.at(i);
                let ok = match bound_type {
                    BoundType::UPPER => lane < *limit,
                    BoundType::LOWER => lane > *limit,
                };
                r.update(i, M::mask_from_bool(ok));
                i += 1;
            }
        },
    }
    proof {
        if obeys_order::<T, T>() || bound is Unbounded {
            assert(r@ =~= mask_words::<M>(
                Seq::new(N as nat, |i: int| within_bound(bound_type, values@[i], bound)),
            ));
        }
    }
    r
}

/// The lanes of `values` that are at least `start` and less than `end`.
pub open spec fn lanes_in_range<T: PartialOrd>(values: Seq<T>, start: T, end: T) -> Seq<bool> {
    Seq::new(values.len(), |i: int| lane_ge(values[i], start) && lane_lt(values[i], end))
}

/// The mask of the lanes of `values` that lie in `range`, its start included
/// and its end excluded.
pub fn simd_inside<T, M, const N: usize>(values: &Packed<T, N>, range: &Range<T>) -> (r: Packed<
    M,
    N,
>) where T: Scaler<MaskType = M> + PartialOrd, M: Mask
    ensures
        r.is_mask(),
        obeys_order::<T, T>() ==> r@ == mask_words::<M>(
            lanes_in_range(values@, range.start, range.end),
        ),
{
    let lower = simd_bound_check::<T, M, N>(BoundType::LOWER, values, Bound::Included(&range.start));
    let upper = simd_bound_check::<T, M, N>(BoundType::UPPER, values, Bound::Excluded(&range.end));
    let r = lower.bitand(upper);
    proof {
        M::lemma_mask_laws();
        if obeys_order::<T, T>() {
            let bits = lanes_in_range(values@, range.start, range.end);
            assert forall|i: int| 0 <= i < N implies r@[i] == mask_word::<M>(bits[i]) by {
                assert(is_canonical(lower@[i]) && is_canonical(upper@[i]));
                assert(r@[i] == lower@[i].bitand_spec(upper@[i]));
            }
            assert(r@ =~= mask_words::<M>(bits));
        }
    }
    r
}

/// Lane by lane, the value negated.
pub fn negate_simd_float<T: Copy + Neg<Output = T>, const N: usize>(value: Packed<T, N>) -> (r:
    Packed<T, N>)
    requires
        forall|i: int| 0 <= i < N ==> #[trigger] value@[i].neg_req(),
    ensures
        T::obeys_neg_spec() ==> r@ == Seq::new(N as nat, |i: int| value@[i].neg_spec()),
{
    value.neg()
}

/// A batch of `N` lanes, each holding a shared reference or nothing.
#[derive(Clone, Copy, Debug)]
pub struct PackedOptionalReference<'a, T, const N: usize> {
    inner: Packed<Option<&'a T>, N>,
}

impl<'a, T, const N: usize> View for PackedOptionalReference<'a, T, N> {
    type V = Seq<Option<&'a T>>;

    closed spec fn view(&self) -> Seq<Option<&'a T>> {
        self.inner@
    }
}

/// A batch of optional references has exactly `N` lanes.
pub broadcast proof fn lemma_references_len<'a, T, const N: usize>(
    p: PackedOptionalReference<'a, T, N>,
)
    ensures
        #[trigger] p@.len() == N,
{
}

impl<'a, T, const N: usize> PackedOptionalReference<'a, T, N> {
    /// The batch with `scaler` in every lane.
    pub fn splat(scaler: Option<&'a T>) -> (r: PackedOptionalReference<'a, T, N>)
        ensures
            r@ == Seq::new(N as nat, |i: int| scaler),
    {
        PackedOptionalReference { inner: Packed::broadcast_scaler(scaler) }
    }

    /// The batch with no reference in any lane.
    pub fn nones() -> (r: PackedOptionalReference<'a, T, N>)
        ensures
            r@ == Seq::new(N as nat, |i: int| None::<&'a T>),
    {
        Self::splat(None)
    }

    /// Replaces the lanes that `mask` selects by those of `values`; the
    /// other lanes keep what they hold.
    pub fn assign_masked<M: Mask>(
        &mut self,
        values: &PackedOptionalReference<'a, T, N>,
        mask: Packed<M, N>,
    )
        ensures
            final(self)@ == select_lanes(old(self)@, values@, mask@),
    {
        let mut inner = self.inner;
        inner.assign_where(&values.inner, &mask);
        self.inner = inner;
    }

    /// What lane `index` holds.
    pub fn at(&self, index: usize) -> (r: Option<&'a T>)
        requires
            index < N,
        ensures
            r == self@[index as int],
    {
        self.inner.at(index)
    }
}

} // verus!
