use raytracer::packed::{Packed, Scaler};
use raytracer::simd_util::{
    masked_assign, masked_select, negate_simd_float, simd_bound_check, simd_inside, BoundType,
    PackedOptionalReference,
};
use std::ops::Bound;

#[derive(Clone, Copy, Debug, PartialEq, PartialOrd)]
struct Real(f64);

impl Scaler for Real {
    type MaskType = u64;
}

const ON: u64 = u64::MAX;
const OFF: u64 = 0;

fn reals<const N: usize>(values: [f64; N]) -> Packed<Real, N> {
    let mut packed = Packed::broadcast_scaler(Real(0.0));
    for i in 0..N {
        packed.update(i, Real(values[i]));
    }
    packed
}

#[test]
fn masked_select_picks_other_where_selected() {
    let base = reals([1.0, 2.0, 3.0, 4.0]);
    let other = reals([-1.0, -2.0, -3.0, -4.0]);
    let mask = Packed::<u64, 4>::from_array([ON, OFF, ON, OFF]);
    let picked = masked_select(base, other, mask);
    assert_eq!(picked.to_array(), [Real(-1.0), Real(2.0), Real(-3.0), Real(4.0)]);
}

#[test]
fn masked_select_differs_from_both_inputs() {
    let base = Packed::<i32, 2>::from_array([1, 2]);
    let other = Packed::<i32, 2>::from_array([10, 20]);
    let mask = Packed::<u32, 2>::from_array([0, u32::MAX]);
    let picked = masked_select(base, other, mask);
    assert_ne!(picked.to_array(), base.to_array());
    assert_ne!(picked.to_array(), other.to_array());
    assert_eq!(picked.to_array(), [1, 20]);
}

#[test]
fn masked_assign_writes_in_place() {
    let mut base = reals([1.0, 2.0, 3.0, 4.0]);
    let other = reals([9.0, 9.0, 9.0, 9.0]);
    masked_assign(&mut base, other, Packed::<u64, 4>::from_array([OFF, OFF, ON, ON]));
    assert_eq!(base.to_array(), [Real(1.0), Real(2.0), Real(9.0), Real(9.0)]);
}

#[test]
fn upper_bound_checks() {
    let values = Packed::<i32, 3>::from_array([1, 2, 3]);
    let included: Packed<u32, 3> = simd_bound_check(BoundType::UPPER, &values, Bound::Included(&2));
    let excluded: Packed<u32, 3> = simd_bound_check(BoundType::UPPER, &values, Bound::Excluded(&2));
    let open: Packed<u32, 3> = simd_bound_check(BoundType::UPPER, &values, Bound::Unbounded);
    assert_eq!(included.to_array(), [u32::MAX, u32::MAX, 0]);
    assert_eq!(excluded.to_array(), [u32::MAX, 0, 0]);
    assert_eq!(open.to_array(), [u32::MAX; 3]);
}

#[test]
fn lower_bound_checks() {
    let values = Packed::<i32, 3>::from_array([1, 2, 3]);
    let included: Packed<u32, 3> = simd_bound_check(BoundType::LOWER, &values, Bound::Included(&2));
    let excluded: Packed<u32, 3> = simd_bound_check(BoundType::LOWER, &values, Bound::Excluded(&2));
    let open: Packed<u32, 3> = simd_bound_check(BoundType::LOWER, &values, Bound::Unbounded);
    assert_eq!(included.to_array(), [0, u32::MAX, u32::MAX]);
    assert_eq!(excluded.to_array(), [0, 0, u32::MAX]);
    assert_eq!(open.to_array(), [u32::MAX; 3]);
}

#[test]
fn simd_inside_is_half_open() {
    let values = reals([0.0005, 0.001, 5.0, f64::INFINITY]);
    let mask = simd_inside(&values, &(Real(0.001)..Real(f64::INFINITY)));
    assert_eq!(mask.to_array(), [OFF, ON, ON, OFF]);
}

#[test]
fn simd_inside_rejects_not_a_number() {
    let values = reals([f64::NAN, 1.0]);
    let mask = simd_inside(&values, &(Real(0.001)..Real(f64::INFINITY)));
    assert_eq!(mask.to_array(), [OFF, ON]);
}

#[test]
fn optional_references_start_empty() {
    let refs: PackedOptionalReference<String, 4> = PackedOptionalReference::nones();
    for i in 0..4 {
        assert!(refs.at(i).is_none());
    }
}

#[test]
fn optional_references_splat() {
    let name = String::from("glass");
    let refs: PackedOptionalReference<String, 3> = PackedOptionalReference::splat(Some(&name));
    for i in 0..3 {
        assert!(std::ptr::eq(refs.at(i).unwrap(), &name));
    }
}

#[test]
fn optional_references_assign_masked() {
    let glass = String::from("glass");
    let steel = String::from("steel");
    let mut refs: PackedOptionalReference<String, 4> = PackedOptionalReference::nones();
    refs.assign_masked(
        &PackedOptionalReference::splat(Some(&glass)),
        Packed::<u64, 4>::from_array([ON, ON, OFF, OFF]),
    );
    refs.assign_masked(
        &PackedOptionalReference::splat(Some(&steel)),
        Packed::<u64, 4>::from_array([OFF, ON, ON, OFF]),
    );
    assert_eq!(refs.at(0).unwrap(), "glass");
    assert_eq!(refs.at(1).unwrap(), "steel");
    assert_eq!(refs.at(2).unwrap(), "steel");
    assert!(refs.at(3).is_none());
}

impl std::ops::Neg for Real {
    type Output = Real;

    fn neg(self) -> Real {
        Real(-self.0)
    }
}

#[test]
fn negate_flips_every_lane() {
    let values = reals([1.5, -2.0, 0.0, f64::INFINITY]);
    let negated = negate_simd_float(values).to_array();
    assert_eq!(negated[0], Real(-1.5));
    assert_eq!(negated[1], Real(2.0));
    assert!(negated[2].0 == 0.0 && negated[2].0.is_sign_negative());
    assert_eq!(negated[3], Real(f64::NEG_INFINITY));
    assert_eq!(negate_simd_float(Packed::<i32, 2>::from_array([3, -4])).to_array(), [-3, 4]);
}
