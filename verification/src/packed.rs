//! Fixed-width batches of lanes and the masks that select among them.

use crate::order::{
    lane_cmp, lane_eq, lane_ge, lane_gt, lane_le, lane_lt, obeys_eq, obeys_order,
};
use core::cmp::Ordering;
use core::fmt::Debug;
use core::ops::{Add, BitAnd, BitOr, BitXor, Div, Mul, Neg, Not, Range, Sub};
use vstd::prelude::*;
use vstd::std_specs::ops::{
    AddSpec, BitAndSpec, BitOrSpec, BitXorSpec, DivSpec, MulSpec, NegSpec, NotSpec, SubSpec,
};

verus! {

/// A value that can fill one lane of a [`Packed`] batch.
pub trait Scaler: Copy + Debug {
    /// The unsigned word that stands for one lane of a mask over this type.
    type MaskType: Mask;
}

/// An unsigned word used as one lane of a mask.
///
/// A lane counts as selected when the top bit of its word is set. The words
/// that the library itself produces are either all ones or all zeros.
pub trait Mask: Copy + Debug + Not<Output = Self> + BitAnd<Output = Self> + BitOr<
    Output = Self,
> + BitXor<Output = Self> {
    /// The word of a lane that is not selected.
    const CLEAR_VALUE: Self;

    /// The word of a selected lane.
    const SET_VALUE: Self;

    /// The bit that decides whether a word selects its lane.
    const TRUE_MASK: Self;

    /// Whether this word selects its lane.
    spec fn is_set(&self) -> bool;

    fn mask_from_bool(b: bool) -> (m: Self)
        ensures
            m == (if b {
                Self::SET_VALUE
            } else {
                Self::CLEAR_VALUE
            }),
    ;

    fn to_bool(&self) -> (b: bool)
        ensures
            b == self.is_set(),
    ;

    /// The bitwise operators act on the deciding bit as the logical
    /// connectives do, and keep canonical words canonical.
    proof fn lemma_mask_laws()
        ensures
            Self::obeys_bitand_spec(),
            Self::obeys_bitor_spec(),
            Self::obeys_bitxor_spec(),
            Self::obeys_not_spec(),
            Self::SET_VALUE.is_set(),
            !Self::CLEAR_VALUE.is_set(),
            forall|a: Self, b: Self| #[trigger] a.bitand_req(b),
            forall|a: Self, b: Self| #[trigger] a.bitor_req(b),
            forall|a: Self, b: Self| #[trigger] a.bitxor_req(b),
            forall|a: Self| #[trigger] a.not_req(),
            forall|a: Self, b: Self| #[trigger]
                a.bitand_spec(b).is_set() == (a.is_set() && b.is_set()),
            forall|a: Self, b: Self| #[trigger]
                a.bitor_spec(b).is_set() == (a.is_set() || b.is_set()),
            forall|a: Self, b: Self| #[trigger]
                a.bitxor_spec(b).is_set() == (a.is_set() != b.is_set()),
            forall|a: Self| #[trigger] a.not_spec().is_set() == !a.is_set(),
            forall|a: Self, b: Self|
                (a == Self::SET_VALUE || a == Self::CLEAR_VALUE) && (b == Self::SET_VALUE || b
                    == Self::CLEAR_VALUE) ==> {
                    let r = #[trigger] a.bitand_spec(b);
                    r == Self::SET_VALUE || r == Self::CLEAR_VALUE
                },
            forall|a: Self, b: Self|
                (a == Self::SET_VALUE || a == Self::CLEAR_VALUE) && (b == Self::SET_VALUE || b
                    == Self::CLEAR_VALUE) ==> {
                    let r = #[trigger] a.bitor_spec(b);
                    r == Self::SET_VALUE || r == Self::CLEAR_VALUE
                },
            forall|a: Self, b: Self|
                (a == Self::SET_VALUE || a == Self::CLEAR_VALUE) && (b == Self::SET_VALUE || b
                    == Self::CLEAR_VALUE) ==> {
                    let r = #[trigger] a.bitxor_spec(b);
                    r == Self::SET_VALUE || r == Self::CLEAR_VALUE
                },
            forall|a: Self|
                (a == Self::SET_VALUE || a == Self::CLEAR_VALUE) ==> {
                    let r = #[trigger] a.not_spec();
                    r == Self::SET_VALUE || r == Self::CLEAR_VALUE
                },
    ;
}

/// The laws of [`Mask::lemma_mask_laws`], gathered under one name.
pub proof fn lemma_mask_laws<M: Mask>()
    ensures
        mask_laws::<M>(),
{
    M::lemma_mask_laws();
}

/// The canonical word for a selected (`true`) or unselected lane.
pub open spec fn mask_word<M: Mask>(b: bool) -> M {
    if b {
        M::SET_VALUE
    } else {
        M::CLEAR_VALUE
    }
}

/// A word with no partial state: all ones or all zeros.
pub open spec fn is_canonical<M: Mask>(m: M) -> bool {
    m == M::SET_VALUE || m == M::CLEAR_VALUE
}

/// What every implementation of [`Mask`] proves of its bitwise operators.
pub open spec fn mask_laws<M: Mask>() -> bool {
    &&& M::obeys_bitand_spec()
    &&& M::obeys_bitor_spec()
    &&& M::obeys_bitxor_spec()
    &&& M::obeys_not_spec()
    &&& M::SET_VALUE.is_set()
    &&& !M::CLEAR_VALUE.is_set()
    &&& forall|a: M, b: M| #[trigger] a.bitand_req(b)
    &&& forall|a: M, b: M| #[trigger] a.bitor_req(b)
    &&& forall|a: M, b: M| #[trigger] a.bitxor_req(b)
    &&& forall|a: M| #[trigger] a.not_req()
    &&& forall|a: M, b: M| #[trigger] a.bitand_spec(b).is_set() == (a.is_set() && b.is_set())
    &&& forall|a: M, b: M| #[trigger] a.bitor_spec(b).is_set() == (a.is_set() || b.is_set())
    &&& forall|a: M, b: M| #[trigger] a.bitxor_spec(b).is_set() == (a.is_set() != b.is_set())
    &&& forall|a: M| #[trigger] a.not_spec().is_set() == !a.is_set()
    &&& forall|a: M, b: M|
        is_canonical(a) && is_canonical(b) ==> is_canonical(#[trigger] a.bitand_spec(b))
    &&& forall|a: M, b: M|
        is_canonical(a) && is_canonical(b) ==> is_canonical(#[trigger] a.bitor_spec(b))
    &&& forall|a: M, b: M|
        is_canonical(a) && is_canonical(b) ==> is_canonical(#[trigger] a.bitxor_spec(b))
    &&& forall|a: M| is_canonical(a) ==> is_canonical(#[trigger] a.not_spec())
}

impl Mask for u8 {
    const CLEAR_VALUE: u8 = 0;

    const SET_VALUE: u8 = 0xff;

    const TRUE_MASK: u8 = 0x80;

    open spec fn is_set(&self) -> bool {
        *self & 0x80 != 0
    }

    fn mask_from_bool(b: bool) -> (m: u8) {
        if b {
            Self::SET_VALUE
        } else {
            Self::CLEAR_VALUE
        }
    }

    fn to_bool(&self) -> (b: bool) {
        (*self & Self::TRUE_MASK) != 0
    }

    proof fn lemma_mask_laws() {
        let s: u8 = 0xff;
        let t: u8 = 0x80;
        assert(s & t != 0 && 0u8 & t == 0) by (bit_vector)
            requires
                s == 0xff,
                t == 0x80,
        ;
        assert forall|a: u8, b: u8| #[trigger]
            a.bitand_spec(b).is_set() == (a.is_set() && b.is_set()) by {
            assert(((a & b) & 0x80 != 0) == ((a & 0x80 != 0) && (b & 0x80 != 0)))
                by (bit_vector);
        }
        assert forall|a: u8, b: u8| #[trigger]
            a.bitor_spec(b).is_set() == (a.is_set() || b.is_set()) by {
            assert(((a | b) & 0x80 != 0) == ((a & 0x80 != 0) || (b & 0x80 != 0)))
                by (bit_vector);
        }
        assert forall|a: u8, b: u8| #[trigger]
            a.bitxor_spec(b).is_set() == (a.is_set() != b.is_set()) by {
            assert(((a ^ b) & 0x80 != 0) == ((a & 0x80 != 0) != (b & 0x80 != 0)))
                by (bit_vector);
        }
        assert forall|a: u8| #[trigger] a.not_spec().is_set() == !a.is_set() by {
            assert(((!a) & 0x80 != 0) == !(a & 0x80 != 0)) by (bit_vector);
        }
        assert(s & s == s && s & 0 == 0 && 0u8 & s == 0 && 0u8 & 0 == 0 && s | s == s && s | 0
            == s && 0u8 | s == s && 0u8 | 0 == 0 && s ^ s == 0 && s ^ 0 == s && 0u8 ^ s == s
            && 0u8 ^ 0 == 0 && !s == 0 && !0u8 == s) by (bit_vector)
            requires
                s == 0xff,
        ;
    }
}

impl Mask for u16 {
    const CLEAR_VALUE: u16 = 0;

    const SET_VALUE: u16 = 0xffff;

    const TRUE_MASK: u16 = 0x8000;

    open spec fn is_set(&self) -> bool {
        *self & 0x8000 != 0
    }

    fn mask_from_bool(b: bool) -> (m: u16) {
        if b {
            Self::SET_VALUE
        } else {
            Self::CLEAR_VALUE
        }
    }

    fn to_bool(&self) -> (b: bool) {
        (*self & Self::TRUE_MASK) != 0
    }

    proof fn lemma_mask_laws() {
        let s: u16 = 0xffff;
        let t: u16 = 0x8000;
        assert(s & t != 0 && 0u16 & t == 0) by (bit_vector)
            requires
                s == 0xffff,
                t == 0x8000,
        ;
        assert forall|a: u16, b: u16| #[trigger]
            a.bitand_spec(b).is_set() == (a.is_set() && b.is_set()) by {
            assert(((a & b) & 0x8000 != 0) == ((a & 0x8000 != 0) && (b & 0x8000 != 0)))
                by (bit_vector);
        }
        assert forall|a: u16, b: u16| #[trigger]
            a.bitor_spec(b).is_set() == (a.is_set() || b.is_set()) by {
            assert(((a | b) & 0x8000 != 0) == ((a & 0x8000 != 0) || (b & 0x8000 != 0)))
                by (bit_vector);
        }
        assert forall|a: u16, b: u16| #[trigger]
            a.bitxor_spec(b).is_set() == (a.is_set() != b.is_set()) by {
            assert(((a ^ b) & 0x8000 != 0) == ((a & 0x8000 != 0) != (b & 0x8000 != 0)))
                by (bit_vector);
        }
        assert forall|a: u16| #[trigger] a.not_spec().is_set() == !a.is_set() by {
            assert(((!a) & 0x8000 != 0) == !(a & 0x8000 != 0)) by (bit_vector);
        }
        assert(s & s == s && s & 0 == 0 && 0u16 & s == 0 && 0u16 & 0 == 0 && s | s == s && s | 0
            == s && 0u16 | s == s && 0u16 | 0 == 0 && s ^ s == 0 && s ^ 0 == s && 0u16 ^ s == s
            && 0u16 ^ 0 == 0 && !s == 0 && !0u16 == s) by (bit_vector)
            requires
                s == 0xffff,
        ;
    }
}

impl Mask for u32 {
    const CLEAR_VALUE: u32 = 0;

    const SET_VALUE: u32 = 0xffff_ffff;

    const TRUE_MASK: u32 = 0x8000_0000;

    open spec fn is_set(&self) -> bool {
        *self & 0x8000_0000 != 0
    }

    fn mask_from_bool(b: bool) -> (m: u32) {
        if b {
            Self::SET_VALUE
        } else {
            Self::CLEAR_VALUE
        }
    }

    fn to_bool(&self) -> (b: bool) {
        (*self & Self::TRUE_MASK) != 0
    }

    proof fn lemma_mask_laws() {
        let s: u32 = 0xffff_ffff;
        let t: u32 = 0x8000_0000;
        assert(s & t != 0 && 0u32 & t == 0) by (bit_vector)
            requires
                s == 0xffff_ffff,
                t == 0x8000_0000,
        ;
        assert forall|a: u32, b: u32| #[trigger]
            a.bitand_spec(b).is_set() == (a.is_set() && b.is_set()) by {
            assert(((a & b) & 0x8000_0000 != 0)
                == ((a & 0x8000_0000 != 0) && (b & 0x8000_0000 != 0)))
                by (bit_vector);
        }
        assert forall|a: u32, b: u32| #[trigger]
            a.bitor_spec(b).is_set() == (a.is_set() || b.is_set()) by {
            assert(((a | b) & 0x8000_0000 != 0)
                == ((a & 0x8000_0000 != 0) || (b & 0x8000_0000 != 0)))
                by (bit_vector);
        }
        assert forall|a: u32, b: u32| #[trigger]
            a.bitxor_spec(b).is_set() == (a.is_set() != b.is_set()) by {
            assert(((a ^ b) & 0x8000_0000 != 0)
                == ((a & 0x8000_0000 != 0) != (b & 0x8000_0000 != 0)))
                by (bit_vector);
        }
        assert forall|a: u32| #[trigger] a.not_spec().is_set() == !a.is_set() by {
            assert(((!a) & 0x8000_0000 != 0) == !(a & 0x8000_0000 != 0)) by (bit_vector);
        }
        assert(s & s == s && s & 0 == 0 && 0u32 & s == 0 && 0u32 & 0 == 0 && s | s == s && s | 0
            == s && 0u32 | s == s && 0u32 | 0 == 0 && s ^ s == 0 && s ^ 0 == s && 0u32 ^ s == s
            && 0u32 ^ 0 == 0 && !s == 0 && !0u32 == s) by (bit_vector)
            requires
                s == 0xffff_ffff,
        ;
    }
}

impl Mask for u64 {
    const CLEAR_VALUE: u64 = 0;

    const SET_VALUE: u64 = 0xffff_ffff_ffff_ffff;

    const TRUE_MASK: u64 = 0x8000_0000_0000_0000;

    open spec fn is_set(&self) -> bool {
        *self & 0x8000_0000_0000_0000 != 0
    }

    fn mask_from_bool(b: bool) -> (m: u64) {
        if b {
            Self::SET_VALUE
        } else {
            Self::CLEAR_VALUE
        }
    }

    fn to_bool(&self) -> (b: bool) {
        (*self & Self::TRUE_MASK) != 0
    }

    proof fn lemma_mask_laws() {
        let s: u64 = 0xffff_ffff_ffff_ffff;
        let t: u64 = 0x8000_0000_0000_0000;
        assert(s & t != 0 && 0u64 & t == 0) by (bit_vector)
            requires
                s == 0xffff_ffff_ffff_ffff,
                t == 0x8000_0000_0000_0000,
        ;
        assert forall|a: u64, b: u64| #[trigger]
            a.bitand_spec(b).is_set() == (a.is_set() && b.is_set()) by {
            assert(((a & b) & 0x8000_0000_0000_0000 != 0)
                == ((a & 0x8000_0000_0000_0000 != 0) && (b & 0x8000_0000_0000_0000 != 0)))
                by (bit_vector);
        }
        assert forall|a: u64, b: u64| #[trigger]
            a.bitor_spec(b).is_set() == (a.is_set() || b.is_set()) by {
            assert(((a | b) & 0x8000_0000_0000_0000 != 0)
                == ((a & 0x8000_0000_0000_0000 != 0) || (b & 0x8000_0000_0000_0000 != 0)))
                by (bit_vector);
        }
        assert forall|a: u64, b: u64| #[trigger]
            a.bitxor_spec(b).is_set() == (a.is_set() != b.is_set()) by {
            assert(((a ^ b) & 0x8000_0000_0000_0000 != 0)
                == ((a & 0x8000_0000_0000_0000 != 0) != (b & 0x8000_0000_0000_0000 != 0)))
                by (bit_vector);
        }
        assert forall|a: u64| #[trigger] a.not_spec().is_set() == !a.is_set() by {
            assert(((!a) & 0x8000_0000_0000_0000 != 0) == !(a & 0x8000_0000_0000_0000 != 0)) by (bit_vector);
        }
        assert(s & s == s && s & 0 == 0 && 0u64 & s == 0 && 0u64 & 0 == 0 && s | s == s && s | 0
            == s && 0u64 | s == s && 0u64 | 0 == 0 && s ^ s == 0 && s ^ 0 == s && 0u64 ^ s == s
            && 0u64 ^ 0 == 0 && !s == 0 && !0u64 == s) by (bit_vector)
            requires
                s == 0xffff_ffff_ffff_ffff,
        ;
    }
}

impl Mask for usize {
    const CLEAR_VALUE: usize = 0;

    const SET_VALUE: usize = !0usize;

    const TRUE_MASK: usize = !(!0usize >> 1);

    open spec fn is_set(&self) -> bool {
        *self & !(!0usize >> 1) != 0
    }

    fn mask_from_bool(b: bool) -> (m: usize) {
        if b {
            Self::SET_VALUE
        } else {
            Self::CLEAR_VALUE
        }
    }

    fn to_bool(&self) -> (b: bool) {
        (*self & Self::TRUE_MASK) != 0
    }

    proof fn lemma_mask_laws() {
        let s: usize = !0usize;
        let t: usize = !(!0usize >> 1);
        assert(s & t != 0 && 0usize & t == 0) by (bit_vector)
            requires
                s == !0usize,
                t == !(!0usize >> 1),
        ;
        assert forall|a: usize, b: usize| #[trigger]
            a.bitand_spec(b).is_set() == (a.is_set() && b.is_set()) by {
            assert(((a & b) & !(!0usize >> 1) != 0)
                == ((a & !(!0usize >> 1) != 0) && (b & !(!0usize >> 1) != 0)))
                by (bit_vector);
        }
        assert forall|a: usize, b: usize| #[trigger]
            a.bitor_spec(b).is_set() == (a.is_set() || b.is_set()) by {
            assert(((a | b) & !(!0usize >> 1) != 0)
                == ((a & !(!0usize >> 1) != 0) || (b & !(!0usize >> 1) != 0)))
                by (bit_vector);
        }
        assert forall|a: usize, b: usize| #[trigger]
            a.bitxor_spec(b).is_set() == (a.is_set() != b.is_set()) by {
            assert(((a ^ b) & !(!0usize >> 1) != 0)
                == ((a & !(!0usize >> 1) != 0) != (b & !(!0usize >> 1) != 0)))
                by (bit_vector);
        }
        assert forall|a: usize| #[trigger] a.not_spec().is_set() == !a.is_set() by {
            assert(((!a) & !(!0usize >> 1) != 0) == !(a & !(!0usize >> 1) != 0)) by (bit_vector);
        }
        assert(s & s == s && s & 0 == 0 && 0usize & s == 0 && 0usize & 0 == 0 && s | s == s && s | 0
            == s && 0usize | s == s && 0usize | 0 == 0 && s ^ s == 0 && s ^ 0 == s && 0usize ^ s == s
            && 0usize ^ 0 == 0 && !s == 0 && !0usize == s) by (bit_vector)
            requires
                s == !0usize,
        ;
    }
}

/// The words that the five mask types use: no bit, every bit, the top bit.
pub proof fn lemma_mask_values()
    ensures
        <u8 as Mask>::CLEAR_VALUE == 0u8,
        <u8 as Mask>::SET_VALUE == 0xffu8,
        <u8 as Mask>::TRUE_MASK == 0x80u8,
        <u16 as Mask>::CLEAR_VALUE == 0u16,
        <u16 as Mask>::SET_VALUE == 0xffffu16,
        <u16 as Mask>::TRUE_MASK == 0x8000u16,
        <u32 as Mask>::CLEAR_VALUE == 0u32,
        <u32 as Mask>::SET_VALUE == 0xffff_ffffu32,
        <u32 as Mask>::TRUE_MASK == 0x8000_0000u32,
        <u64 as Mask>::CLEAR_VALUE == 0u64,
        <u64 as Mask>::SET_VALUE == 0xffff_ffff_ffff_ffffu64,
        <u64 as Mask>::TRUE_MASK == 0x8000_0000_0000_0000u64,
        <usize as Mask>::CLEAR_VALUE == 0usize,
        <usize as Mask>::SET_VALUE == !0usize,
        <usize as Mask>::TRUE_MASK == !(!0usize >> 1),
{
}

impl Scaler for u8 {
    type MaskType = u8;
}

impl Scaler for u16 {
    type MaskType = u16;
}

impl Scaler for u32 {
    type MaskType = u32;
}

impl Scaler for u64 {
    type MaskType = u64;
}

impl Scaler for usize {
    type MaskType = usize;
}

impl Scaler for i8 {
    type MaskType = u8;
}

impl Scaler for i16 {
    type MaskType = u16;
}

impl Scaler for i32 {
    type MaskType = u32;
}

impl Scaler for i64 {
    type MaskType = u64;
}

impl Scaler for isize {
    type MaskType = usize;
}

impl Scaler for bool {
    type MaskType = u8;
}

/// A batch of `N` lanes, each holding one value of type `T`.
#[derive(Clone, Copy, Debug)]
pub struct Packed<T: Copy, const N: usize>([T; N]);

impl<T: Copy, const N: usize> View for Packed<T, N> {
    type V = Seq<T>;

    closed spec fn view(&self) -> Seq<T> {
        self.0@
    }
}

/// A batch has exactly `N` lanes.
pub broadcast proof fn lemma_packed_len<T: Copy, const N: usize>(p: Packed<T, N>)
    ensures
        #[trigger] p@.len() == N,
{
}

/// Two batches with the same lanes are the same batch.
pub proof fn lemma_packed_ext_equal<T: Copy, const N: usize>(a: Packed<T, N>, b: Packed<T, N>)
    requires
        a@ =~= b@,
    ensures
        a == b,
{
    assert(a.0 =~= b.0);
}

/// Lane by lane: the lane of `other` where `mask` selects it, else the lane
/// of `base`.
pub open spec fn select_lanes<T, M: Mask>(base: Seq<T>, other: Seq<T>, mask: Seq<M>) -> Seq<T> {
    Seq::new(
        base.len(),
        |i: int|
            if mask[i].is_set() {
                other[i]
            } else {
                base[i]
            },
    )
}

/// A masked assignment overwrites the lanes that the mask selects, and
/// only those: a lane that differs afterwards was selected, a selected lane
/// holds the new value, and every other lane holds what it held.
pub proof fn lemma_masked_lanes<T, M: Mask>(base: Seq<T>, other: Seq<T>, mask: Seq<M>, i: int)
    requires
        0 <= i < base.len(),
    ensures
        select_lanes(base, other, mask).len() == base.len(),
        mask[i].is_set() ==> select_lanes(base, other, mask)[i] == other[i],
        !mask[i].is_set() ==> select_lanes(base, other, mask)[i] == base[i],
        select_lanes(base, other, mask)[i] != base[i] ==> mask[i].is_set(),
        other[i] != base[i] ==> (select_lanes(base, other, mask)[i] != base[i]
            <==> mask[i].is_set()),
{
}

/// The canonical mask words for a sequence of lane decisions.
pub open spec fn mask_words<M: Mask>(bits: Seq<bool>) -> Seq<M> {
    Seq::new(bits.len(), |i: int| mask_word::<M>(bits[i]))
}

impl<T: Copy, const N: usize> Packed<T, N> {
    pub fn len() -> (n: usize)
        ensures
            n == N,
    {
        N
    }

    /// The batch whose lanes are the elements of `value`, in order.
    pub fn from_array(value: [T; N]) -> (r: Self)
        ensures
            r@ == value@,
    {
        Packed(value)
    }

    /// The lanes as an array, in order.
    pub fn to_array(&self) -> (r: [T; N])
        ensures
            r@ == self@,
    {
        self.0
    }

    /// The value of lane `index`.
    pub fn at(&self, index: usize) -> (r: T)
        requires
            index < N,
        ensures
            r == self@[index as int],
    {
        self.0[index]
    }

    /// Overwrites lane `index` and leaves every other lane as it was.
    pub fn update(&mut self, index: usize, value: T)
        requires
            index < N,
        ensures
            final(self)@ == old(self)@.update(index as int, value),
    {
        self.0[index] = value;
    }

    /// The batch with `scaler` in every lane.
    pub fn broadcast_scaler(scaler: T) -> (r: Self)
        ensures
            r@ == Seq::new(N as nat, |i: int| scaler),
    {
        let r = Packed([scaler;N]);
        assert(r@ =~= Seq::new(N as nat, |i: int| scaler));
        r
    }

    /// Replaces the lanes that `mask` selects by those of `values`; the
    /// other lanes keep their value. The mask may be of any word type.
    pub fn assign_where<M: Mask>(&mut self, values: &Packed<T, N>, mask: &Packed<M, N>)
        ensures
            final(self)@ == select_lanes(old(self)@, values@, mask@),
    {
        let mut i: usize = 0;
        while i < N
            invariant
                i <= N,
                self@.len() == N,
                forall|j: int|
                    0 <= j < i ==> self@[j] == select_lanes(old(self)@, values@, mask@)[j],
                forall|j: int| i <= j < N ==> self@[j] == old(self)@[j],
            decreases N - i,
        {
            if mask.at(i).to_bool() {
                self.update(i, values.at(i));
            }
            i += 1;
        }
        assert(self@ =~= select_lanes(old(self)@, values@, mask@));
    }

    /// Replaces the lanes that `mask` selects by those of `values`; the
    /// other lanes keep their value.
    pub fn assign_masked<M>(&mut self, values: Packed<T, N>, mask: Packed<M, N>) where
        T: Scaler<MaskType = M>,
        M: Mask,

        ensures
            final(self)@ == select_lanes(old(self)@, values@, mask@),
    {
        self.assign_where(&values, &mask);
    }

    /// The batch that [`Packed::assign_masked`] would leave in `self`.
    pub fn select_masked<M>(&self, values: Packed<T, N>, mask: Packed<M, N>) -> (r: Packed<
        T,
        N,
    >) where T: Scaler<MaskType = M>, M: Mask
        ensures
            r@ == select_lanes(self@, values@, mask@),
    {
        let mut r = *self;
        r.assign_masked(values, mask);
        r
    }
}

impl<T: Copy, const N: usize> Packed<T, N> {
    /// Lane by lane, what `f` makes of the value.
    pub fn map<S: Fn(T) -> T>(&self, f: &S) -> (r: Packed<T, N>)
        requires
            forall|i: int| 0 <= i < N ==> #[trigger] f.requires((self@[i],)),
        ensures
            forall|i: int| 0 <= i < N ==> f.ensures((self@[i],), #[trigger] r@[i]),
    {
        let mut r = *self;
        let mut i: usize = 0;
        while i < N
            invariant
                i <= N,
                r@.len() == N,
                forall|j: int| 0 <= j < N ==> #[trigger] f.requires((self@[j],)),
                forall|j: int| 0 <= j < i ==> f.ensures((self@[j],), #[trigger] r@[j]),
            decreases N - i,
        {
            assert(f.requires((self@[i as int],)));
            let lane = f(self.at(i));
            r.update(i, lane);
            i += 1;
        }
        r
    }
}

/// The lanes of `s` before lane `n`, added from the left.
pub open spec fn lane_sum<T: Add<Output = T>>(s: Seq<T>, n: int) -> T
    decreases n,
{
    if n <= 1 {
        s[0]
    } else {
        lane_sum(s, n - 1).add_spec(s[n - 1])
    }
}

impl<T: Scaler + Add<Output = T>, const N: usize> Packed<T, N> {
    /// All lanes added up, from the first lane on. Each addition has to be
    /// one that `T` allows (for an integer: one that does not overflow).
    pub fn sum(&self) -> (r: T)
        requires
            N >= 1,
            T::obeys_add_spec(),
            forall|i: int| 1 <= i < N ==> #[trigger] lane_sum(self@, i).add_req(self@[i]),
        ensures
            r == lane_sum(self@, N as int),
    {
        let mut result = self.at(0);
        let mut i: usize = 1;
        while i < N
            invariant
                1 <= i <= N,
                T::obeys_add_spec(),
                forall|j: int| 1 <= j < N ==> #[trigger] lane_sum(self@, j).add_req(self@[j]),
                result == lane_sum(self@, i as int),
            decreases N - i,
        {
            result = result + self.at(i);
            i += 1;
        }
        result
    }
}

impl<T: Copy + Add<Output = T>, const N: usize> Packed<T, N> {
    /// Lane by lane, the sum of the two batches. Each lane has to be one
    /// that `T` can compute (for an integer: without overflow).
    pub fn add(self, rhs: Packed<T, N>) -> (r: Packed<T, N>)
        requires
            forall|i: int| 0 <= i < N ==> #[trigger] self@[i].add_req(rhs@[i]),
        ensures
            T::obeys_add_spec() ==> r@ == Seq::new(N as nat, |i: int| self@[i].add_spec(rhs@[i])),
    {
        let mut r = self;
        let mut i: usize = 0;
        while i < N
            invariant
                i <= N,
                r@.len() == N,
                forall|j: int| 0 <= j < N ==> #[trigger] self@[j].add_req(rhs@[j]),
                T::obeys_add_spec() ==> forall|j: int|
                    0 <= j < i ==> #[trigger] r@[j] == self@[j].add_spec(rhs@[j]),
            decreases N - i,
        {
            assert(self@[i as int].add_req(rhs@[i as int]));
            let lane = self.at(i) + rhs.at(i);
            r.update(i, lane);
            i += 1;
        }
        proof {
            if T::obeys_add_spec() {
                assert(r@ =~= Seq::new(N as nat, |i: int| self@[i].add_spec(rhs@[i])));
            }
        }
        r
    }
}

impl<T: Copy + Sub<Output = T>, const N: usize> Packed<T, N> {
    /// Lane by lane, the difference of the two batches. Each lane has to be one
    /// that `T` can compute (for an integer: without overflow).
    pub fn sub(self, rhs: Packed<T, N>) -> (r: Packed<T, N>)
        requires
            forall|i: int| 0 <= i < N ==> #[trigger] self@[i].sub_req(rhs@[i]),
        ensures
            T::obeys_sub_spec() ==> r@ == Seq::new(N as nat, |i: int| self@[i].sub_spec(rhs@[i])),
    {
        let mut r = self;
        let mut i: usize = 0;
        while i < N
            invariant
                i <= N,
                r@.len() == N,
                forall|j: int| 0 <= j < N ==> #[trigger] self@[j].sub_req(rhs@[j]),
                T::obeys_sub_spec() ==> forall|j: int|
                    0 <= j < i ==> #[trigger] r@[j] == self@[j].sub_spec(rhs@[j]),
            decreases N - i,
        {
            assert(self@[i as int].sub_req(rhs@[i as int]));
            let lane = self.at(i) - rhs.at(i);
            r.update(i, lane);
            i += 1;
        }
        proof {
            if T::obeys_sub_spec() {
                assert(r@ =~= Seq::new(N as nat, |i: int| self@[i].sub_spec(rhs@[i])));
            }
        }
        r
    }
}

impl<T: Copy + Mul<Output = T>, const N: usize> Packed<T, N> {
    /// Lane by lane, the product of the two batches. Each lane has to be one
    /// that `T` can compute (for an integer: without overflow).
    pub fn mul(self, rhs: Packed<T, N>) -> (r: Packed<T, N>)
        requires
            forall|i: int| 0 <= i < N ==> #[trigger] self@[i].mul_req(rhs@[i]),
        ensures
            T::obeys_mul_spec() ==> r@ == Seq::new(N as nat, |i: int| self@[i].mul_spec(rhs@[i])),
    {
        let mut r = self;
        let mut i: usize = 0;
        while i < N
            invariant
                i <= N,
                r@.len() == N,
                forall|j: int| 0 <= j < N ==> #[trigger] self@[j].mul_req(rhs@[j]),
                T::obeys_mul_spec() ==> forall|j: int|
                    0 <= j < i ==> #[trigger] r@[j] == self@[j].mul_spec(rhs@[j]),
            decreases N - i,
        {
            assert(self@[i as int].mul_req(rhs@[i as int]));
            let lane = self.at(i) * rhs.at(i);
            r.update(i, lane);
            i += 1;
        }
        proof {
            if T::obeys_mul_spec() {
                assert(r@ =~= Seq::new(N as nat, |i: int| self@[i].mul_spec(rhs@[i])));
            }
        }
        r
    }
}

impl<T: Copy + Div<Output = T>, const N: usize> Packed<T, N> {
    /// Lane by lane, the quotient of the two batches. Each lane has to be one
    /// that `T` can compute (for an integer: without overflow).
    pub fn div(self, rhs: Packed<T, N>) -> (r: Packed<T, N>)
        requires
            forall|i: int| 0 <= i < N ==> #[trigger] self@[i].div_req(rhs@[i]),
        ensures
            T::obeys_div_spec() ==> r@ == Seq::new(N as nat, |i: int| self@[i].div_spec(rhs@[i])),
    {
        let mut r = self;
        let mut i: usize = 0;
        while i < N
            invariant
                i <= N,
                r@.len() == N,
                forall|j: int| 0 <= j < N ==> #[trigger] self@[j].div_req(rhs@[j]),
                T::obeys_div_spec() ==> forall|j: int|
                    0 <= j < i ==> #[trigger] r@[j] == self@[j].div_spec(rhs@[j]),
            decreases N - i,
        {
            assert(self@[i as int].div_req(rhs@[i as int]));
            let lane = self.at(i) / rhs.at(i);
            r.update(i, lane);
            i += 1;
        }
        proof {
            if T::obeys_div_spec() {
                assert(r@ =~= Seq::new(N as nat, |i: int| self@[i].div_spec(rhs@[i])));
            }
        }
        r
    }
}

impl<T: Copy + Neg<Output = T>, const N: usize> Packed<T, N> {
    /// Lane by lane, the value negated.
    pub fn neg(self) -> (r: Packed<T, N>)
        requires
            forall|i: int| 0 <= i < N ==> #[trigger] self@[i].neg_req(),
        ensures
            T::obeys_neg_spec() ==> r@ == Seq::new(N as nat, |i: int| self@[i].neg_spec()),
    {
        let mut r = self;
        let mut i: usize = 0;
        while i < N
            invariant
                i <= N,
                r@.len() == N,
                forall|j: int| 0 <= j < N ==> #[trigger] self@[j].neg_req(),
                T::obeys_neg_spec() ==> forall|j: int|
                    0 <= j < i ==> #[trigger] r@[j] == self@[j].neg_spec(),
            decreases N - i,
        {
            assert(self@[i as int].neg_req());
            let lane = self.at(i).neg();
            r.update(i, lane);
            i += 1;
        }
        proof {
            if T::obeys_neg_spec() {
                assert(r@ =~= Seq::new(N as nat, |i: int| self@[i].neg_spec()));
            }
        }
        r
    }
}

/// The lanes of `values` that lie in the half-open range from `start` to `end`.
pub open spec fn lanes_inside<T: PartialOrd>(values: Seq<T>, start: T, end: T) -> Seq<bool> {
    Seq::new(values.len(), |i: int| lane_le(start, values[i]) && lane_lt(values[i], end))
}

impl<T: Scaler + PartialOrd, const N: usize> Packed<T, N> {
    /// The mask of the lanes whose value lies in `range`, its start included
    /// and its end excluded.
    pub fn inside<M>(&self, range: &Range<T>) -> (r: Packed<M, N>) where
        T: Scaler<MaskType = M>,
        M: Mask,

        ensures
            r.is_mask(),
            obeys_order::<T, T>() ==> r@ == mask_words::<M>(
                lanes_inside(self@, range.start, range.end),
            ),
    {
        let mut r = Packed::<M, N>::broadcast_bool(false);
        let mut i: usize = 0;
        while i < N
            invariant
                i <= N,
                r@.len() == N,
                forall|j: int| 0 <= j < N ==> is_canonical(#[trigger] r@[j]),
                obeys_order::<T, T>() ==> forall|j: int|
                    0 <= j < i ==> r@[j] == mask_word::<M>(
                        lane_le(range.start, self@[j]) && lane_lt(self@[j], range.end),
                    ),
            decreases N - i,
        {
            let lane = self.at(i);
            r.update(i, M::mask_from_bool(range.start <= lane && lane < range.end));
            i += 1;
        }
        proof {
            if obeys_order::<T, T>() {
                assert(r@ =~= mask_words::<M>(lanes_inside(self@, range.start, range.end)));
            }
        }
        r
    }
}

impl<M: Mask, const N: usize> Packed<M, N> {
    /// The lane decisions that this mask stands for.
    pub open spec fn bits(&self) -> Seq<bool> {
        Seq::new(N as nat, |i: int| self@[i].is_set())
    }

    /// Every lane is all ones or all zeros.
    pub open spec fn is_mask(&self) -> bool {
        forall|i: int| 0 <= i < N ==> is_canonical(#[trigger] self@[i])
    }

    /// The mask that selects every lane (`true`) or none.
    pub fn broadcast_bool(b: bool) -> (r: Self)
        ensures
            r@ == Seq::new(N as nat, |i: int| mask_word::<M>(b)),
            r.is_mask(),
    {
        Self::broadcast_scaler(M::mask_from_bool(b))
    }

    /// The mask of canonical words that selects the same lanes.
    pub fn canonical(self) -> (r: Self)
        ensures
            r.is_mask(),
            r@ == mask_words::<M>(self.bits()),
    {
        let mut r = Self::broadcast_bool(false);
        let mut i: usize = 0;
        while i < N
            invariant
                i <= N,
                r@.len() == N,
                forall|j: int| 0 <= j < N ==> is_canonical(#[trigger] r@[j]),
                forall|j: int| 0 <= j < i ==> r@[j] == mask_word::<M>(self@[j].is_set()),
            decreases N - i,
        {
            r.update(i, M::mask_from_bool(self.at(i).to_bool()));
            i += 1;
        }
        assert(r@ =~= mask_words::<M>(self.bits()));
        r
    }

    /// Whether every lane is selected.
    pub fn all(&self) -> (b: bool)
        ensures
            b == (forall|i: int| 0 <= i < N ==> self@[i].is_set()),
    {
        let mut i: usize = 0;
        while i < N
            invariant
                i <= N,
                forall|j: int| 0 <= j < i ==> self@[j].is_set(),
            decreases N - i,
        {
            if !self.at(i).to_bool() {
                return false;
            }
            i += 1;
        }
        true
    }

    /// Whether at least one lane is selected.
    pub fn any(&self) -> (b: bool)
        ensures
            b == (exists|i: int| 0 <= i < N && self@[i].is_set()),
    {
        let mut i: usize = 0;
        while i < N
            invariant
                i <= N,
                forall|j: int| 0 <= j < i ==> !self@[j].is_set(),
            decreases N - i,
        {
            if self.at(i).to_bool() {
                return true;
            }
            i += 1;
        }
        false
    }

    /// Lane by lane `&`.
    pub fn bitand(self, rhs: Packed<M, N>) -> (r: Packed<M, N>)
        ensures
            r@ == Seq::new(N as nat, |i: int| self@[i].bitand_spec(rhs@[i])),
            r.bits() == Seq::new(N as nat, |i: int| self@[i].is_set() && rhs@[i].is_set()),
            self.is_mask() && rhs.is_mask() ==> r.is_mask(),
    {
        proof {
            M::lemma_mask_laws();
        }
        let mut r = self;
        let mut i: usize = 0;
        while i < N
            invariant
                i <= N,
                r@.len() == N,
                M::obeys_bitand_spec(),
                forall|a: M, b: M| #[trigger] a.bitand_req(b),
                forall|j: int| 0 <= j < i ==> r@[j] == self@[j].bitand_spec(rhs@[j]),
                forall|j: int| i <= j < N ==> r@[j] == self@[j],
            decreases N - i,
        {
            r.update(i, self.at(i) & rhs.at(i));
            i += 1;
        }
        assert(r@ =~= Seq::new(N as nat, |i: int| self@[i].bitand_spec(rhs@[i])));
        assert(r.bits() =~= Seq::new(N as nat, |i: int| self@[i].is_set() && rhs@[i].is_set()));
        r
    }

    /// Lane by lane `|`.
    pub fn bitor(self, rhs: Packed<M, N>) -> (r: Packed<M, N>)
        ensures
            r@ == Seq::new(N as nat, |i: int| self@[i].bitor_spec(rhs@[i])),
            r.bits() == Seq::new(N as nat, |i: int| self@[i].is_set() || rhs@[i].is_set()),
            self.is_mask() && rhs.is_mask() ==> r.is_mask(),
    {
        proof {
            M::lemma_mask_laws();
        }
        let mut r = self;
        let mut i: usize = 0;
        while i < N
            invariant
                i <= N,
                r@.len() == N,
                M::obeys_bitor_spec(),
                forall|a: M, b: M| #[trigger] a.bitor_req(b),
                forall|j: int| 0 <= j < i ==> r@[j] == self@[j].bitor_spec(rhs@[j]),
                forall|j: int| i <= j < N ==> r@[j] == self@[j],
            decreases N - i,
        {
            r.update(i, self.at(i) | rhs.at(i));
            i += 1;
        }
        assert(r@ =~= Seq::new(N as nat, |i: int| self@[i].bitor_spec(rhs@[i])));
        assert(r.bits() =~= Seq::new(N as nat, |i: int| self@[i].is_set() || rhs@[i].is_set()));
        r
    }

    /// Lane by lane `^`.
    pub fn bitxor(self, rhs: Packed<M, N>) -> (r: Packed<M, N>)
        ensures
            r@ == Seq::new(N as nat, |i: int| self@[i].bitxor_spec(rhs@[i])),
            r.bits() == Seq::new(N as nat, |i: int| self@[i].is_set() != rhs@[i].is_set()),
            self.is_mask() && rhs.is_mask() ==> r.is_mask(),
    {
        proof {
            M::lemma_mask_laws();
        }
        let mut r = self;
        let mut i: usize = 0;
        while i < N
            invariant
                i <= N,
                r@.len() == N,
                M::obeys_bitxor_spec(),
                forall|a: M, b: M| #[trigger] a.bitxor_req(b),
                forall|j: int| 0 <= j < i ==> r@[j] == self@[j].bitxor_spec(rhs@[j]),
                forall|j: int| i <= j < N ==> r@[j] == self@[j],
            decreases N - i,
        {
            r.update(i, self.at(i) ^ rhs.at(i));
            i += 1;
        }
        assert(r@ =~= Seq::new(N as nat, |i: int| self@[i].bitxor_spec(rhs@[i])));
        assert(r.bits() =~= Seq::new(N as nat, |i: int| self@[i].is_set() != rhs@[i].is_set()));
        r
    }

    /// Lane by lane `!`.
    pub fn not(self) -> (r: Packed<M, N>)
        ensures
            r@ == Seq::new(N as nat, |i: int| self@[i].not_spec()),
            r.bits() == Seq::new(N as nat, |i: int| !self@[i].is_set()),
            self.is_mask() ==> r.is_mask(),
    {
        proof {
            M::lemma_mask_laws();
        }
        let mut r = self;
        let mut i: usize = 0;
        while i < N
            invariant
                i <= N,
                r@.len() == N,
                M::obeys_not_spec(),
                forall|a: M| #[trigger] a.not_req(),
                forall|j: int| 0 <= j < i ==> r@[j] == self@[j].not_spec(),
                forall|j: int| i <= j < N ==> r@[j] == self@[j],
            decreases N - i,
        {
            r.update(i, !self.at(i));
            i += 1;
        }
        assert(r@ =~= Seq::new(N as nat, |i: int| self@[i].not_spec()));
        assert(r.bits() =~= Seq::new(N as nat, |i: int| !self@[i].is_set()));
        r
    }

    /// Selects, besides the lanes already selected, those that `mask` selects.
    pub fn set(&mut self, mask: &Packed<M, N>)
        ensures
            final(self)@ == Seq::new(N as nat, |i: int| old(self)@[i].bitor_spec(mask@[i])),
            final(self).bits() == Seq::new(
                N as nat,
                |i: int| old(self)@[i].is_set() || mask@[i].is_set(),
            ),
            old(self).is_mask() && mask.is_mask() ==> final(self).is_mask(),
    {
        *self = self.bitor(*mask);
    }

    /// Unselects the lanes that `mask` selects.
    pub fn clear(&mut self, mask: &Packed<M, N>)
        ensures
            final(self)@ == Seq::new(
                N as nat,
                |i: int| old(self)@[i].bitand_spec(mask@[i].not_spec()),
            ),
            final(self).bits() == Seq::new(
                N as nat,
                |i: int| old(self)@[i].is_set() && !mask@[i].is_set(),
            ),
            old(self).is_mask() && mask.is_mask() ==> final(self).is_mask(),
    {
        let inverted = mask.not();
        let r = self.bitand(inverted);
        assert(r@ =~= Seq::new(
            N as nat,
            |i: int| old(self)@[i].bitand_spec(mask@[i].not_spec()),
        ));
        proof {
            M::lemma_mask_laws();
        }
        assert(r.bits() =~= Seq::new(
            N as nat,
            |i: int| old(self)@[i].is_set() && !mask@[i].is_set(),
        ));
        *self = r;
    }
}


impl<T: Copy, const N: usize> Packed<T, N> {
    /// Lane by lane, how the value of `self` stands to that of `other`, or
    /// nothing where the two do not compare.
    pub fn partial_cmp<U: Copy>(&self, other: &Packed<U, N>) -> (r: [Option<Ordering>; N]) where
        T: PartialOrd<U>,

        ensures
            obeys_order::<T, U>() ==> forall|i: int|
                0 <= i < N ==> #[trigger] r@[i] == lane_cmp(self@[i], other@[i]),
    {
        let mut r = [None;N];
        let mut i: usize = 0;
        while i < N
            invariant
                i <= N,
                obeys_order::<T, U>() ==> forall|j: int|
                    0 <= j < i ==> #[trigger] r@[j] == lane_cmp(self@[j], other@[j]),
            decreases N - i,
        {
            let lane = self.at(i);
            let against = other.at(i);
            r[i] = lane.partial_cmp(&against);
            i += 1;
        }
        r
    }
}

/// Lane by lane equality between two batches, as a mask.
pub trait PackedPartialEq<U, M, const N: usize> where U: Scaler<MaskType = M>, M: Mask {
    /// Whether the comparison of the lane types follows its specification,
    /// so that the results below are stated.
    spec fn obeys_packed_eq() -> bool;

    /// The lanes in which the two batches hold equal values.
    spec fn eq_lanes(&self, rhs: &Packed<U, N>) -> Seq<bool>;

    fn eq(&self, rhs: &Packed<U, N>) -> (r: Packed<M, N>)
        ensures
            r.is_mask(),
            Self::obeys_packed_eq() ==> r@ == mask_words::<M>(self.eq_lanes(rhs)),
    ;

    fn ne(&self, rhs: &Packed<U, N>) -> (r: Packed<M, N>)
        ensures
            r.is_mask(),
            Self::obeys_packed_eq() ==> r@ == mask_words::<M>(
                Seq::new(N as nat, |i: int| !self.eq_lanes(rhs)[i]),
            ),
    ;
}

impl<T, U, M, const N: usize> PackedPartialEq<U, M, N> for Packed<T, N> where
    T: Scaler + PartialEq<U>,
    U: Scaler<MaskType = M>,
    M: Mask,
 {
    open spec fn obeys_packed_eq() -> bool {
        obeys_eq::<T, U>()
    }

    open spec fn eq_lanes(&self, rhs: &Packed<U, N>) -> Seq<bool> {
        Seq::new(N as nat, |i: int| lane_eq(self@[i], rhs@[i]))
    }

    fn eq(&self, rhs: &Packed<U, N>) -> (r: Packed<M, N>) {
        let mut r = Packed::<M, N>::broadcast_bool(false);
        let mut i: usize = 0;
        while i < N
            invariant
                i <= N,
                r@.len() == N,
                forall|j: int| 0 <= j < N ==> is_canonical(#[trigger] r@[j]),
                obeys_eq::<T, U>() ==> forall|j: int|
                    0 <= j < i ==> r@[j] == mask_word::<M>(lane_eq(self@[j], rhs@[j])),
            decreases N - i,
        {
            let lane = self.at(i);
            r.update(i, M::mask_from_bool(lane == rhs.at(i)));
            i += 1;
        }
        proof {
            if obeys_eq::<T, U>() {
                assert(r@ =~= mask_words::<M>(self.eq_lanes(rhs)));
            }
        }
        r
    }

    fn ne(&self, rhs: &Packed<U, N>) -> (r: Packed<M, N>) {
        let e = PackedPartialEq::eq(self, rhs);
        let r = e.not();
        proof {
            M::lemma_mask_laws();
            if obeys_eq::<T, U>() {
                assert(r@ =~= mask_words::<M>(Seq::new(N as nat, |i: int| !self.eq_lanes(rhs)[i])));
            }
        }
        r
    }
}

/// Equality between each lane of a batch and one value, as a mask.
pub trait PackedScalerPartialEq<U, M, const N: usize> where U: Scaler<MaskType = M>, M: Mask {
    /// Whether the comparison of the lane types follows its specification,
    /// so that the results below are stated.
    spec fn obeys_scaler_eq() -> bool;

    /// The lanes whose value equals `rhs`.
    spec fn eq_scaler_lanes(&self, rhs: &U) -> Seq<bool>;

    fn eq(&self, rhs: &U) -> (r: Packed<M, N>)
        ensures
            r.is_mask(),
            Self::obeys_scaler_eq() ==> r@ == mask_words::<M>(self.eq_scaler_lanes(rhs)),
    ;

    fn ne(&self, rhs: &U) -> (r: Packed<M, N>)
        ensures
            r.is_mask(),
            Self::obeys_scaler_eq() ==> r@ == mask_words::<M>(
                Seq::new(N as nat, |i: int| !self.eq_scaler_lanes(rhs)[i]),
            ),
    ;
}

impl<T, U, M, const N: usize> PackedScalerPartialEq<U, M, N> for Packed<T, N> where
    T: Scaler + PartialEq<U>,
    U: Scaler<MaskType = M>,
    M: Mask,
 {
    open spec fn obeys_scaler_eq() -> bool {
        obeys_eq::<T, U>()
    }

    open spec fn eq_scaler_lanes(&self, rhs: &U) -> Seq<bool> {
        Seq::new(N as nat, |i: int| lane_eq(self@[i], *rhs))
    }

    fn eq(&self, rhs: &U) -> (r: Packed<M, N>) {
        let mut r = Packed::<M, N>::broadcast_bool(false);
        let mut i: usize = 0;
        while i < N
            invariant
                i <= N,
                r@.len() == N,
                forall|j: int| 0 <= j < N ==> is_canonical(#[trigger] r@[j]),
                obeys_eq::<T, U>() ==> forall|j: int|
                    0 <= j < i ==> r@[j] == mask_word::<M>(lane_eq(self@[j], *rhs)),
            decreases N - i,
        {
            let lane = self.at(i);
            r.update(i, M::mask_from_bool(lane == *rhs));
            i += 1;
        }
        proof {
            if obeys_eq::<T, U>() {
                assert(r@ =~= mask_words::<M>(self.eq_scaler_lanes(rhs)));
            }
        }
        r
    }

    fn ne(&self, rhs: &U) -> (r: Packed<M, N>) {
        let e = PackedScalerPartialEq::eq(self, rhs);
        let r = e.not();
        proof {
            M::lemma_mask_laws();
            if obeys_eq::<T, U>() {
                assert(r@ =~= mask_words::<M>(
                    Seq::new(N as nat, |i: int| !self.eq_scaler_lanes(rhs)[i]),
                ));
            }
        }
        r
    }
}

/// Lane by lane order between two batches, as masks. A lane whose values
/// do not compare is selected by none of the four.
pub trait PackedPartialOrd<U, M, const N: usize> where U: Scaler<MaskType = M>, M: Mask {
    /// Whether the comparison of the lane types follows its specification,
    /// so that the results below are stated.
    spec fn obeys_packed_order() -> bool;

    /// The lanes in which the value of `self` is less than that of `rhs`.
    spec fn lt_lanes(&self, rhs: &Packed<U, N>) -> Seq<bool>;

    /// The lanes in which the value of `self` is less than or equal to that of `rhs`.
    spec fn le_lanes(&self, rhs: &Packed<U, N>) -> Seq<bool>;

    /// The lanes in which the value of `self` is greater than that of `rhs`.
    spec fn gt_lanes(&self, rhs: &Packed<U, N>) -> Seq<bool>;

    /// The lanes in which the value of `self` is greater than or equal to that of `rhs`.
    spec fn ge_lanes(&self, rhs: &Packed<U, N>) -> Seq<bool>;

    fn lt(&self, rhs: &Packed<U, N>) -> (r: Packed<M, N>)
        ensures
            r.is_mask(),
            Self::obeys_packed_order() ==> r@ == mask_words::<M>(self.lt_lanes(rhs)),
    ;

    fn le(&self, rhs: &Packed<U, N>) -> (r: Packed<M, N>)
        ensures
            r.is_mask(),
            Self::obeys_packed_order() ==> r@ == mask_words::<M>(self.le_lanes(rhs)),
    ;

    fn gt(&self, rhs: &Packed<U, N>) -> (r: Packed<M, N>)
        ensures
            r.is_mask(),
            Self::obeys_packed_order() ==> r@ == mask_words::<M>(self.gt_lanes(rhs)),
    ;

    fn ge(&self, rhs: &Packed<U, N>) -> (r: Packed<M, N>)
        ensures
            r.is_mask(),
            Self::obeys_packed_order() ==> r@ == mask_words::<M>(self.ge_lanes(rhs)),
    ;
}

impl<T, U, M, const N: usize> PackedPartialOrd<U, M, N> for Packed<T, N> where
    T: Scaler + PartialOrd<U>,
    U: Scaler<MaskType = M>,
    M: Mask,
 {
    open spec fn obeys_packed_order() -> bool {
        obeys_order::<T, U>()
    }

    open spec fn lt_lanes(&self, rhs: &Packed<U, N>) -> Seq<bool> {
        Seq::new(N as nat, |i: int| lane_lt(self@[i], rhs@[i]))
    }

    open spec fn le_lanes(&self, rhs: &Packed<U, N>) -> Seq<bool> {
        Seq::new(N as nat, |i: int| lane_le(self@[i], rhs@[i]))
    }

    open spec fn gt_lanes(&self, rhs: &Packed<U, N>) -> Seq<bool> {
        Seq::new(N as nat, |i: int| lane_gt(self@[i], rhs@[i]))
    }

    open spec fn ge_lanes(&self, rhs: &Packed<U, N>) -> Seq<bool> {
        Seq::new(N as nat, |i: int| lane_ge(self@[i], rhs@[i]))
    }

    fn lt(&self, rhs: &Packed<U, N>) -> (r: Packed<M, N>) {
        let mut r = Packed::<M, N>::broadcast_bool(false);
        let mut i: usize = 0;
        while i < N
            invariant
                i <= N,
                r@.len() == N,
                forall|j: int| 0 <= j < N ==> is_canonical(#[trigger] r@[j]),
                obeys_order::<T, U>() ==> forall|j: int|
                    0 <= j < i ==> r@[j] == mask_word::<M>(lane_lt(self@[j], rhs@[j])),
            decreases N - i,
        {
            let lane = self.at(i);
            r.update(i, M::mask_from_bool(lane < rhs.at(i)));
            i += 1;
        }
        proof {
            if obeys_order::<T, U>() {
                assert(r@ =~= mask_words::<M>(self.lt_lanes(rhs)));
            }
        }
        r
    }

    fn le(&self, rhs: &Packed<U, N>) -> (r: Packed<M, N>) {
        let mut r = Packed::<M, N>::broadcast_bool(false);
        let mut i: usize = 0;
        while i < N
            invariant
                i <= N,
                r@.len() == N,
                forall|j: int| 0 <= j < N ==> is_canonical(#[trigger] r@[j]),
                obeys_order::<T, U>() ==> forall|j: int|
                    0 <= j < i ==> r@[j] == mask_word::<M>(lane_le(self@[j], rhs@[j])),
            decreases N - i,
        {
            let lane = self.at(i);
            r.update(i, M::mask_from_bool(lane <= rhs.at(i)));
            i += 1;
        }
        proof {
            if obeys_order::<T, U>() {
                assert(r@ =~= mask_words::<M>(self.le_lanes(rhs)));
            }
        }
        r
    }

    fn gt(&self, rhs: &Packed<U, N>) -> (r: Packed<M, N>) {
        let mut r = Packed::<M, N>::broadcast_bool(false);
        let mut i: usize = 0;
        while i < N
            invariant
                i <= N,
                r@.len() == N,
                forall|j: int| 0 <= j < N ==> is_canonical(#[trigger] r@[j]),
                obeys_order::<T, U>() ==> forall|j: int|
                    0 <= j < i ==> r@[j] == mask_word::<M>(lane_gt(self@[j], rhs@[j])),
            decreases N - i,
        {
            let lane = self.at(i);
            r.update(i, M::mask_from_bool(lane > rhs.at(i)));
            i += 1;
        }
        proof {
            if obeys_order::<T, U>() {
                assert(r@ =~= mask_words::<M>(self.gt_lanes(rhs)));
            }
        }
        r
    }

    fn ge(&self, rhs: &Packed<U, N>) -> (r: Packed<M, N>) {
        let mut r = Packed::<M, N>::broadcast_bool(false);
        let mut i: usize = 0;
        while i < N
            invariant
                i <= N,
                r@.len() == N,
                forall|j: int| 0 <= j < N ==> is_canonical(#[trigger] r@[j]),
                obeys_order::<T, U>() ==> forall|j: int|
                    0 <= j < i ==> r@[j] == mask_word::<M>(lane_ge(self@[j], rhs@[j])),
            decreases N - i,
        {
            let lane = self.at(i);
            r.update(i, M::mask_from_bool(lane >= rhs.at(i)));
            i += 1;
        }
        proof {
            if obeys_order::<T, U>() {
                assert(r@ =~= mask_words::<M>(self.ge_lanes(rhs)));
            }
        }
        r
    }
}

/// Order between each lane of a batch and one value, as masks. A lane
/// whose value does not compare with it is selected by none of the four.
pub trait PackedScalerPartialOrd<U, M, const N: usize> where U: Scaler<MaskType = M>, M: Mask {
    /// Whether the comparison of the lane types follows its specification,
    /// so that the results below are stated.
    spec fn obeys_scaler_order() -> bool;

    /// The lanes whose value is less than `rhs`.
    spec fn lt_scaler_lanes(&self, rhs: &U) -> Seq<bool>;

    /// The lanes whose value is less than or equal to `rhs`.
    spec fn le_scaler_lanes(&self, rhs: &U) -> Seq<bool>;

    /// The lanes whose value is greater than `rhs`.
    spec fn gt_scaler_lanes(&self, rhs: &U) -> Seq<bool>;

    /// The lanes whose value is greater than or equal to `rhs`.
    spec fn ge_scaler_lanes(&self, rhs: &U) -> Seq<bool>;

    fn lt(&self, rhs: &U) -> (r: Packed<M, N>)
        ensures
            r.is_mask(),
            Self::obeys_scaler_order() ==> r@ == mask_words::<M>(self.lt_scaler_lanes(rhs)),
    ;

    fn le(&self, rhs: &U) -> (r: Packed<M, N>)
        ensures
            r.is_mask(),
            Self::obeys_scaler_order() ==> r@ == mask_words::<M>(self.le_scaler_lanes(rhs)),
    ;

    fn gt(&self, rhs: &U) -> (r: Packed<M, N>)
        ensures
            r.is_mask(),
            Self::obeys_scaler_order() ==> r@ == mask_words::<M>(self.gt_scaler_lanes(rhs)),
    ;

    fn ge(&self, rhs: &U) -> (r: Packed<M, N>)
        ensures
            r.is_mask(),
            Self::obeys_scaler_order() ==> r@ == mask_words::<M>(self.ge_scaler_lanes(rhs)),
    ;
}

impl<T, U, M, const N: usize> PackedScalerPartialOrd<U, M, N> for Packed<T, N> where
    T: Scaler + PartialOrd<U>,
    U: Scaler<MaskType = M>,
    M: Mask,
 {
    open spec fn obeys_scaler_order() -> bool {
        obeys_order::<T, U>()
    }

    open spec fn lt_scaler_lanes(&self, rhs: &U) -> Seq<bool> {
        Seq::new(N as nat, |i: int| lane_lt(self@[i], *rhs))
    }

    open spec fn le_scaler_lanes(&self, rhs: &U) -> Seq<bool> {
        Seq::new(N as nat, |i: int| lane_le(self@[i], *rhs))
    }

    open spec fn gt_scaler_lanes(&self, rhs: &U) -> Seq<bool> {
        Seq::new(N as nat, |i: int| lane_gt(self@[i], *rhs))
    }

    open spec fn ge_scaler_lanes(&self, rhs: &U) -> Seq<bool> {
        Seq::new(N as nat, |i: int| lane_ge(self@[i], *rhs))
    }

    fn lt(&self, rhs: &U) -> (r: Packed<M, N>) {
        let mut r = Packed::<M, N>::broadcast_bool(false);
        let mut i: usize = 0;
        while i < N
            invariant
                i <= N,
                r@.len() == N,
                forall|j: int| 0 <= j < N ==> is_canonical(#[trigger] r@[j]),
                obeys_order::<T, U>() ==> forall|j: int|
                    0 <= j < i ==> r@[j] == mask_word::<M>(lane_lt(self@[j], *rhs)),
            decreases N - i,
        {
            let lane = self.at(i);
            r.update(i, M::mask_from_bool(lane < *rhs));
            i += 1;
        }
        proof {
            if obeys_order::<T, U>() {
                assert(r@ =~= mask_words::<M>(self.lt_scaler_lanes(rhs)));
            }
        }
        r
    }

    fn le(&self, rhs: &U) -> (r: Packed<M, N>) {
        let mut r = Packed::<M, N>::broadcast_bool(false);
        let mut i: usize = 0;
        while i < N
            invariant
                i <= N,
                r@.len() == N,
                forall|j: int| 0 <= j < N ==> is_canonical(#[trigger] r@[j]),
                obeys_order::<T, U>() ==> forall|j: int|
                    0 <= j < i ==> r@[j] == mask_word::<M>(lane_le(self@[j], *rhs)),
            decreases N - i,
        {
            let lane = self.at(i);
            r.update(i, M::mask_from_bool(lane <= *rhs));
            i += 1;
        }
        proof {
            if obeys_order::<T, U>() {
                assert(r@ =~= mask_words::<M>(self.le_scaler_lanes(rhs)));
            }
        }
        r
    }

    fn gt(&self, rhs: &U) -> (r: Packed<M, N>) {
        let mut r = Packed::<M, N>::broadcast_bool(false);
        let mut i: usize = 0;
        while i < N
            invariant
                i <= N,
                r@.len() == N,
                forall|j: int| 0 <= j < N ==> is_canonical(#[trigger] r@[j]),
                obeys_order::<T, U>() ==> forall|j: int|
                    0 <= j < i ==> r@[j] == mask_word::<M>(lane_gt(self@[j], *rhs)),
            decreases N - i,
        {
            let lane = self.at(i);
            r.update(i, M::mask_from_bool(lane > *rhs));
            i += 1;
        }
        proof {
            if obeys_order::<T, U>() {
                assert(r@ =~= mask_words::<M>(self.gt_scaler_lanes(rhs)));
            }
        }
        r
    }

    fn ge(&self, rhs: &U) -> (r: Packed<M, N>) {
        let mut r = Packed::<M, N>::broadcast_bool(false);
        let mut i: usize = 0;
        while i < N
            invariant
                i <= N,
                r@.len() == N,
                forall|j: int| 0 <= j < N ==> is_canonical(#[trigger] r@[j]),
                obeys_order::<T, U>() ==> forall|j: int|
                    0 <= j < i ==> r@[j] == mask_word::<M>(lane_ge(self@[j], *rhs)),
            decreases N - i,
        {
            let lane = self.at(i);
            r.update(i, M::mask_from_bool(lane >= *rhs));
            i += 1;
        }
        proof {
            if obeys_order::<T, U>() {
                assert(r@ =~= mask_words::<M>(self.ge_scaler_lanes(rhs)));
            }
        }
        r
    }
}

} // verus!
