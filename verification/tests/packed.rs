use std::cmp::Ordering;

use raytracer::packed::{
    Mask, Packed, PackedPartialEq, PackedPartialOrd, PackedScalerPartialEq, PackedScalerPartialOrd,
    Scaler,
};

#[derive(Clone, Copy, Debug, PartialEq, PartialOrd)]
struct Real(f64);

impl Scaler for Real {
    type MaskType = u64;
}

impl std::ops::Add for Real {
    type Output = Real;

    fn add(self, rhs: Real) -> Real {
        Real(self.0 + rhs.0)
    }
}

const ON: u64 = u64::MAX;
const OFF: u64 = 0;

#[test]
fn mask_words_of_every_type() {
    assert_eq!(<u8 as Mask>::CLEAR_VALUE, 0);
    assert_eq!(<u8 as Mask>::SET_VALUE, 0xff);
    assert_eq!(<u8 as Mask>::TRUE_MASK, 0x80);
    assert_eq!(<u16 as Mask>::SET_VALUE, 0xffff);
    assert_eq!(<u16 as Mask>::TRUE_MASK, 0x8000);
    assert_eq!(<u32 as Mask>::SET_VALUE, 0xffff_ffff);
    assert_eq!(<u32 as Mask>::TRUE_MASK, 0x8000_0000);
    assert_eq!(<u64 as Mask>::SET_VALUE, u64::MAX);
    assert_eq!(<u64 as Mask>::TRUE_MASK, 0x8000_0000_0000_0000);
    assert_eq!(<usize as Mask>::CLEAR_VALUE, 0);
    assert_eq!(<usize as Mask>::SET_VALUE, usize::MAX);
    assert_eq!(<usize as Mask>::TRUE_MASK, usize::MAX & !(usize::MAX >> 1));
}

#[test]
fn mask_from_bool_gives_canonical_words() {
    assert_eq!(u8::mask_from_bool(true), 0xff);
    assert_eq!(u8::mask_from_bool(false), 0);
    assert_eq!(u16::mask_from_bool(true), 0xffff);
    assert_eq!(u32::mask_from_bool(true), 0xffff_ffff);
    assert_eq!(u64::mask_from_bool(true), u64::MAX);
    assert_eq!(u64::mask_from_bool(false), 0);
    assert_eq!(usize::mask_from_bool(true), usize::MAX);
    assert_eq!(usize::mask_from_bool(false), 0);
}

#[test]
fn to_bool_reads_the_top_bit() {
    assert!(0x80u8.to_bool());
    assert!(0xffu8.to_bool());
    assert!(!0x7fu8.to_bool());
    assert!(!0u8.to_bool());
    assert!(0x8000u16.to_bool());
    assert!(!0x7fffu16.to_bool());
    assert!(0x8000_0000u32.to_bool());
    assert!(!0x7fff_ffffu32.to_bool());
    assert!(0x8000_0000_0000_0000u64.to_bool());
    assert!(!0x7fff_ffff_ffff_ffffu64.to_bool());
    assert!(usize::MAX.to_bool());
    assert!(!(usize::MAX >> 1).to_bool());
}

#[test]
fn len_is_the_lane_count() {
    assert_eq!(Packed::<u32, 4>::len(), 4);
    assert_eq!(Packed::<Real, 8>::len(), 8);
    assert_eq!(Packed::<u8, 1>::len(), 1);
}

#[test]
fn from_array_and_back() {
    let p = Packed::<i32, 4>::from_array([3, -1, 4, -1]);
    assert_eq!(p.to_array(), [3, -1, 4, -1]);
    assert_eq!(p.at(0), 3);
    assert_eq!(p.at(3), -1);
}

#[test]
fn update_changes_one_lane() {
    let mut p = Packed::<i32, 4>::from_array([1, 2, 3, 4]);
    p.update(2, 30);
    assert_eq!(p.to_array(), [1, 2, 30, 4]);
}

#[test]
fn broadcast_scaler_fills_every_lane() {
    let p = Packed::<Real, 4>::broadcast_scaler(Real(2.5));
    assert_eq!(p.to_array(), [Real(2.5); 4]);
}

#[test]
fn assign_masked_overwrites_selected_lanes_only() {
    let mut base = Packed::<Real, 4>::from_array([Real(1.0), Real(2.0), Real(3.0), Real(4.0)]);
    let values = Packed::<Real, 4>::from_array([Real(10.0), Real(20.0), Real(30.0), Real(40.0)]);
    let mask = Packed::<u64, 4>::from_array([OFF, ON, OFF, ON]);
    base.assign_masked(values, mask);
    assert_eq!(base.to_array(), [Real(1.0), Real(20.0), Real(3.0), Real(40.0)]);
}

#[test]
fn assign_masked_keeps_unselected_lanes_bit_for_bit() {
    let odd = [f64::NAN, -0.0, f64::INFINITY, 1.0e-310];
    let mut base = Packed::<Real, 4>::from_array([Real(odd[0]), Real(odd[1]), Real(odd[2]), Real(odd[3])]);
    let values = Packed::<Real, 4>::broadcast_scaler(Real(7.0));
    let mask = Packed::<u64, 4>::broadcast_bool(false);
    base.assign_masked(values, mask);
    let after = base.to_array();
    for i in 0..4 {
        assert_eq!(after[i].0.to_bits(), odd[i].to_bits());
    }
}

#[test]
fn assign_masked_goes_by_the_top_bit_of_a_word() {
    let mut base = Packed::<u32, 3>::from_array([1, 2, 3]);
    let values = Packed::<u32, 3>::from_array([10, 20, 30]);
    let mask = Packed::<u32, 3>::from_array([0x7fff_ffff, 0x8000_0000, 1]);
    base.assign_masked(values, mask);
    assert_eq!(base.to_array(), [1, 20, 3]);
}

#[test]
fn assign_where_takes_any_mask_word() {
    let mut base = Packed::<i64, 2>::from_array([5, 6]);
    let values = Packed::<i64, 2>::from_array([50, 60]);
    let mask = Packed::<u8, 2>::from_array([0xff, 0]);
    base.assign_where(&values, &mask);
    assert_eq!(base.to_array(), [50, 6]);
}

#[test]
fn select_masked_leaves_the_base_alone() {
    let base = Packed::<u16, 4>::from_array([1, 2, 3, 4]);
    let values = Packed::<u16, 4>::from_array([10, 20, 30, 40]);
    let mask = Packed::<u16, 4>::from_array([0xffff, 0, 0, 0xffff]);
    let picked = base.select_masked(values, mask);
    assert_eq!(picked.to_array(), [10, 2, 3, 40]);
    assert_eq!(base.to_array(), [1, 2, 3, 4]);
}

#[test]
fn sum_adds_all_lanes() {
    let p = Packed::<u64, 4>::from_array([1, 2, 3, 4]);
    assert_eq!(p.sum(), 10);
    let q = Packed::<Real, 3>::from_array([Real(0.5), Real(0.25), Real(0.125)]);
    assert_eq!(q.sum(), Real(0.875));
    let single = Packed::<i32, 1>::from_array([-7]);
    assert_eq!(single.sum(), -7);
}

#[test]
fn inside_marks_lanes_in_a_half_open_range() {
    let p = Packed::<i32, 5>::from_array([0, 1, 2, 3, 4]);
    let mask: Packed<u32, 5> = p.inside(&(1..3));
    assert_eq!(mask.to_array(), [0, u32::MAX, u32::MAX, 0, 0]);
}

#[test]
fn inside_rejects_what_does_not_compare() {
    let p = Packed::<Real, 3>::from_array([Real(f64::NAN), Real(0.5), Real(f64::INFINITY)]);
    let mask = p.inside(&(Real(0.001)..Real(f64::INFINITY)));
    assert_eq!(mask.to_array(), [OFF, ON, OFF]);
}

#[test]
fn broadcast_bool_fills_the_mask() {
    assert_eq!(Packed::<u64, 3>::broadcast_bool(true).to_array(), [ON; 3]);
    assert_eq!(Packed::<u64, 3>::broadcast_bool(false).to_array(), [OFF; 3]);
}

#[test]
fn all_and_any() {
    let none = Packed::<u64, 4>::broadcast_bool(false);
    let every = Packed::<u64, 4>::broadcast_bool(true);
    let some = Packed::<u64, 4>::from_array([OFF, OFF, ON, OFF]);
    assert!(!none.all());
    assert!(!none.any());
    assert!(every.all());
    assert!(every.any());
    assert!(!some.all());
    assert!(some.any());
}

#[test]
fn bitwise_operations_on_masks() {
    let a = Packed::<u64, 4>::from_array([OFF, OFF, ON, ON]);
    let b = Packed::<u64, 4>::from_array([OFF, ON, OFF, ON]);
    assert_eq!(a.bitand(b).to_array(), [OFF, OFF, OFF, ON]);
    assert_eq!(a.bitor(b).to_array(), [OFF, ON, ON, ON]);
    assert_eq!(a.bitxor(b).to_array(), [OFF, ON, ON, OFF]);
    assert_eq!(a.not().to_array(), [ON, ON, OFF, OFF]);
}

#[test]
fn canonical_rounds_words_to_all_or_nothing() {
    let ragged = Packed::<u8, 4>::from_array([0x81, 0x7f, 0x80, 0x01]);
    assert_eq!(ragged.canonical().to_array(), [0xff, 0, 0xff, 0]);
}

#[test]
fn set_and_clear() {
    let mut mask = Packed::<u64, 4>::from_array([OFF, OFF, ON, ON]);
    mask.set(&Packed::from_array([OFF, ON, OFF, ON]));
    assert_eq!(mask.to_array(), [OFF, ON, ON, ON]);
    mask.clear(&Packed::from_array([ON, ON, OFF, OFF]));
    assert_eq!(mask.to_array(), [OFF, OFF, ON, ON]);
}

#[test]
fn packed_equality() {
    let a = Packed::<i32, 3>::from_array([1, 2, 3]);
    let b = Packed::<i32, 3>::from_array([1, 5, 3]);
    let eq: Packed<u32, 3> = PackedPartialEq::eq(&a, &b);
    let ne: Packed<u32, 3> = PackedPartialEq::ne(&a, &b);
    assert_eq!(eq.to_array(), [u32::MAX, 0, u32::MAX]);
    assert_eq!(ne.to_array(), [0, u32::MAX, 0]);
}

#[test]
fn packed_equality_with_one_value() {
    let a = Packed::<i32, 3>::from_array([1, 2, 1]);
    let eq: Packed<u32, 3> = PackedScalerPartialEq::eq(&a, &1);
    let ne: Packed<u32, 3> = PackedScalerPartialEq::ne(&a, &1);
    assert_eq!(eq.to_array(), [u32::MAX, 0, u32::MAX]);
    assert_eq!(ne.to_array(), [0, u32::MAX, 0]);
}

#[test]
fn packed_order() {
    let a = Packed::<i64, 3>::from_array([1, 2, 3]);
    let b = Packed::<i64, 3>::from_array([2, 2, 2]);
    let lt: Packed<u64, 3> = PackedPartialOrd::lt(&a, &b);
    let le: Packed<u64, 3> = PackedPartialOrd::le(&a, &b);
    let gt: Packed<u64, 3> = PackedPartialOrd::gt(&a, &b);
    let ge: Packed<u64, 3> = PackedPartialOrd::ge(&a, &b);
    assert_eq!(lt.to_array(), [ON, OFF, OFF]);
    assert_eq!(le.to_array(), [ON, ON, OFF]);
    assert_eq!(gt.to_array(), [OFF, OFF, ON]);
    assert_eq!(ge.to_array(), [OFF, ON, ON]);
}

#[test]
fn packed_order_with_one_value() {
    let a = Packed::<i64, 3>::from_array([1, 2, 3]);
    let lt: Packed<u64, 3> = PackedScalerPartialOrd::lt(&a, &2);
    let le: Packed<u64, 3> = PackedScalerPartialOrd::le(&a, &2);
    let gt: Packed<u64, 3> = PackedScalerPartialOrd::gt(&a, &2);
    let ge: Packed<u64, 3> = PackedScalerPartialOrd::ge(&a, &2);
    assert_eq!(lt.to_array(), [ON, OFF, OFF]);
    assert_eq!(le.to_array(), [ON, ON, OFF]);
    assert_eq!(gt.to_array(), [OFF, OFF, ON]);
    assert_eq!(ge.to_array(), [OFF, ON, ON]);
}

#[test]
fn a_lane_that_does_not_compare_is_in_no_order_mask() {
    let a = Packed::<Real, 2>::from_array([Real(f64::NAN), Real(1.0)]);
    let b = Packed::<Real, 2>::from_array([Real(1.0), Real(1.0)]);
    let lt: Packed<u64, 2> = PackedPartialOrd::lt(&a, &b);
    let le: Packed<u64, 2> = PackedPartialOrd::le(&a, &b);
    let gt: Packed<u64, 2> = PackedPartialOrd::gt(&a, &b);
    let ge: Packed<u64, 2> = PackedPartialOrd::ge(&a, &b);
    assert_eq!(lt.to_array(), [OFF, OFF]);
    assert_eq!(le.to_array(), [OFF, ON]);
    assert_eq!(gt.to_array(), [OFF, OFF]);
    assert_eq!(ge.to_array(), [OFF, ON]);
}

#[test]
fn partial_cmp_lane_by_lane() {
    let a = Packed::<Real, 4>::from_array([Real(1.0), Real(2.0), Real(3.0), Real(f64::NAN)]);
    let b = Packed::<Real, 4>::from_array([Real(2.0), Real(2.0), Real(2.0), Real(2.0)]);
    assert_eq!(
        a.partial_cmp(&b),
        [Some(Ordering::Less), Some(Ordering::Equal), Some(Ordering::Greater), None]
    );
}
