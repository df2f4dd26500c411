//! Surfaces, the record of a hit, and the batch that keeps the nearest hit
//! of every lane while the surfaces of a scene are tried one after another.

use crate::color::Color;
use crate::geometry::{lemma_packed_vec3_len, PackedPoint3, PackedVec3, Point3, Vec3};
use crate::numbers::{answers_all, computes, total_arithmetic, Number};
use crate::order::{lane_ge, lane_le, lane_lt, obeys_order};
use crate::packed::{
    lemma_packed_len, mask_word, mask_words, Mask, Packed, PackedPartialOrd,
    PackedScalerPartialOrd, Scaler,
};
use crate::ray::{lemma_packed_rays_len, PackedRays, Ray};
use crate::simd_util::{
    lemma_references_len, masked_assign, masked_select, simd_inside, PackedOptionalReference,
};
use core::ops::{Neg, Range};
use vstd::prelude::*;
use vstd::std_specs::ops::{AddSpec, DivSpec, MulSpec, NegSpec, SubSpec};

verus! {

broadcast use {
    lemma_packed_len,
    lemma_packed_vec3_len,
    lemma_packed_rays_len,
    lemma_references_len,
};

/// Where a ray met a surface.
#[derive(Debug)]
pub struct HitRecord<'a, T, M> {
    pub location: Point3<T>,
    pub normal: Vec3<T>,
    pub t: T,
    pub front_face: bool,
    pub material: &'a M,
}

impl<'a, T: Number, M> HitRecord<'a, T, M> {
    /// The record of a hit of `ray` at `location`, at the parameter `t`,
    /// on a surface whose normal there is `outward_normal`. The ray meets
    /// the front face if it goes against that normal, which is to say that
    /// its direction and the normal have a dot product below `zero`. The
    /// record keeps the normal that is turned against the ray.
    pub open spec fn new_spec(
        ray: Ray<T>,
        location: Point3<T>,
        outward_normal: Vec3<T>,
        t: T,
        material: &'a M,
        zero: T,
    ) -> HitRecord<'a, T, M> {
        let front_face = lane_lt(ray.direction.dot_spec(outward_normal), zero);
        HitRecord {
            location,
            normal: if front_face {
                outward_normal
            } else {
                outward_normal.neg_spec()
            },
            t,
            front_face,
            material,
        }
    }

    /// The record of a hit of `ray`; see [`HitRecord::new_spec`].
    pub fn new(
        ray: &Ray<T>,
        location: Point3<T>,
        outward_normal: Vec3<T>,
        t: T,
        material: &'a M,
        zero: T,
    ) -> (r: HitRecord<'a, T, M>)
        requires
            total_arithmetic::<T>(),
        ensures
            r == Self::new_spec(*ray, location, outward_normal, t, material, zero),
    {
        let front_face = ray.direction().dot(&outward_normal) < zero;
        let normal = if front_face {
            outward_normal
        } else {
            outward_normal.neg()
        };
        HitRecord { location, normal, t, front_face, material }
    }
}

impl<'a, T: Copy, M> HitRecord<'a, T, M> {
    pub fn location(&self) -> (r: Point3<T>)
        ensures
            r == self.location,
    {
        self.location
    }

    pub fn normal(&self) -> (r: Vec3<T>)
        ensures
            r == self.normal,
    {
        self.normal
    }

    pub fn t(&self) -> (r: T)
        ensures
            r == self.t,
    {
        self.t
    }

    pub fn front_face(&self) -> (r: bool)
        ensures
            r == self.front_face,
    {
        self.front_face
    }

    pub fn material(&self) -> (r: &'a M)
        ensures
            r == self.material,
    {
        self.material
    }
}

/// The nearest of the hits found for one ray, surface by surface; of
/// several hits at the very same parameter, the one found first.
pub open spec fn nearest_of<'a, T: PartialOrd, M>(found: Seq<Option<HitRecord<'a, T, M>>>) -> Option<
    HitRecord<'a, T, M>,
>
    decreases found.len(),
{
    if found.len() == 0 {
        None
    } else {
        let best = nearest_of(found.drop_last());
        match (best, found.last()) {
            (_, None) => best,
            (None, Some(hit)) => Some(hit),
            (Some(kept), Some(hit)) => if lane_lt(hit.t, kept.t) {
                Some(hit)
            } else {
                Some(kept)
            },
        }
    }
}

/// The nearest of the hits that the surfaces of a scene report for one
/// ray; see [`nearest_of`].
pub fn nearest<'a, T: Copy + PartialOrd, M>(found: &Vec<Option<HitRecord<'a, T, M>>>) -> (r: Option<
    HitRecord<'a, T, M>,
>)
    ensures
        obeys_order::<T, T>() ==> r == nearest_of(found@),
        r is None <==> forall|i: int| 0 <= i < found@.len() ==> found@[i] is None,
{
    let mut best: Option<HitRecord<'a, T, M>> = None;
    let mut i: usize = 0;
    while i < found.len()
        invariant
            i <= found.len(),
            obeys_order::<T, T>() ==> best == nearest_of(found@.take(i as int)),
            best is None <==> forall|k: int| 0 <= k < i ==> found@[k] is None,
        decreases found.len() - i,
    {
        proof {
            assert(found@.take(i + 1).drop_last() =~= found@.take(i as int));
        }
        match &found[i] {
            None => {},
            Some(hit) => {
                let nearer = match &best {
                    None => true,
                    Some(kept) => hit.t < kept.t,
                };
                if nearer {
                    best =
                    Some(
                        HitRecord {
                            location: hit.location,
                            normal: hit.normal,
                            t: hit.t,
                            front_face: hit.front_face,
                            material: hit.material,
                        },
                    );
                }
            },
        }
        i += 1;
    }
    proof {
        assert(found@.take(found@.len() as int) =~= found@);
    }
    best
}

/// What a surface makes of a ray that hits it: the share of the light it
/// passes on, and the ray it sends on, if any.
#[derive(Clone, Copy, Debug)]
pub struct HitResult<T> {
    pub attenuation: Color<T>,
    pub scattered_ray: Option<Ray<T>>,
}

impl<T: Copy> HitResult<T> {
    /// The surface keeps the ray.
    pub fn new_absorbed(attenuation: Color<T>) -> (r: HitResult<T>)
        ensures
            r == (HitResult { attenuation, scattered_ray: None }),
    {
        HitResult { attenuation, scattered_ray: None }
    }

    /// The surface sends `scattered_ray` on.
    pub fn new_scattered(attenuation: Color<T>, scattered_ray: Ray<T>) -> (r: HitResult<T>)
        ensures
            r == (HitResult { attenuation, scattered_ray: Some(scattered_ray) }),
    {
        HitResult { attenuation, scattered_ray: Some(scattered_ray) }
    }

    pub fn attenuation(&self) -> (r: Color<T>)
        ensures
            r == self.attenuation,
    {
        self.attenuation
    }

    pub fn scattered_ray(&self) -> (r: Option<&Ray<T>>)
        ensures
            r == (match self.scattered_ray {
                Some(ray) => Some(&ray),
                None => None,
            }),
    {
        self.scattered_ray.as_ref()
    }
}

/// One lane of a batch of hit records.
pub struct HitLane<'a, T, M> {
    pub location: Point3<T>,
    pub normal: Vec3<T>,
    pub t: T,
    pub front_face: bool,
    pub hit: bool,
    pub material: Option<&'a M>,
}

impl<'a, T, M> HitLane<'a, T, M> {
    /// The record of the hit that the lane holds, if it holds one.
    pub open spec fn record(self) -> Option<HitRecord<'a, T, M>> {
        if self.hit {
            Some(
                HitRecord {
                    location: self.location,
                    normal: self.normal,
                    t: self.t,
                    front_face: self.front_face,
                    material: self.material.unwrap(),
                },
            )
        } else {
            None
        }
    }
}

/// The lane after a surface was tried: where the surface reports a hit
/// (`valid`) that is not farther than the one kept so far, the lane takes
/// the normal, the parameter and the material of the new hit. A hit at
/// the very same parameter replaces the one kept.
pub open spec fn hit_lane_after<'a, T: PartialOrd, M>(
    lane: HitLane<'a, T, M>,
    valid: bool,
    outward_normal: Vec3<T>,
    t: T,
    material: &'a M,
) -> HitLane<'a, T, M> {
    if valid && lane_le(t, lane.t) {
        HitLane {
            location: lane.location,
            normal: outward_normal,
            t,
            front_face: lane.front_face,
            hit: true,
            material: Some(material),
        }
    } else {
        lane
    }
}

/// The lanes of a batch of hit records after a surface was tried; see
/// [`hit_lane_after`].
pub open spec fn records_after<'a, T: PartialOrd, M>(
    lanes: Seq<HitLane<'a, T, M>>,
    valid: Seq<bool>,
    outward_normals: Seq<Vec3<T>>,
    t: Seq<T>,
    material: &'a M,
) -> Seq<HitLane<'a, T, M>> {
    Seq::new(
        lanes.len(),
        |i: int| hit_lane_after(lanes[i], valid[i], outward_normals[i], t[i], material),
    )
}

/// Of two hits that are reported for one lane, the second replaces the
/// first if it is not farther, and only then: the nearer hit is kept, and
/// of two hits at the very same parameter the one reported later.
pub proof fn lemma_nearest_hit_wins<'a, T: PartialOrd, M>(
    lane: HitLane<'a, T, M>,
    first_normal: Vec3<T>,
    first_t: T,
    first_material: &'a M,
    second_normal: Vec3<T>,
    second_t: T,
    second_material: &'a M,
)
    requires
        lane_le(first_t, lane.t),
    ensures
        ({
            let kept = hit_lane_after(
                hit_lane_after(lane, true, first_normal, first_t, first_material),
                true,
                second_normal,
                second_t,
                second_material,
            );
            &&& kept.hit
            &&& lane_le(second_t, first_t) ==> kept.t == second_t && kept.normal == second_normal
                && kept.material == Some(second_material)
            &&& !lane_le(second_t, first_t) ==> kept.t == first_t && kept.normal == first_normal
                && kept.material == Some(first_material)
        }),
{
}

/// What one surface reports for one lane.
pub struct HitReport<'a, T, M> {
    pub valid: bool,
    pub outward_normal: Vec3<T>,
    pub t: T,
    pub material: &'a M,
}

/// The lane after the surfaces behind `reports` were tried in their order.
pub open spec fn lane_after_reports<'a, T: PartialOrd, M>(
    lane: HitLane<'a, T, M>,
    reports: Seq<HitReport<'a, T, M>>,
) -> HitLane<'a, T, M>
    decreases reports.len(),
{
    if reports.len() == 0 {
        lane
    } else {
        let report = reports.last();
        hit_lane_after(
            lane_after_reports(lane, reports.drop_last()),
            report.valid,
            report.outward_normal,
            report.t,
            report.material,
        )
    }
}

/// Whether any two values of `T` compare, and comparing carries over from
/// one pair to the next.
pub open spec fn orders_all<T: PartialOrd>() -> bool {
    &&& forall|a: T, b: T| #[trigger] lane_le(a, b) || lane_le(b, a)
    &&& forall|a: T, b: T, c: T| #[trigger]
        lane_le(a, b) && #[trigger] lane_le(b, c) ==> lane_le(a, c)
}

/// Once every surface was tried, a lane is no farther than where it
/// started and no farther than any hit that was reported for it; and if it
/// has a hit that it did not start with, its parameter is that of one of
/// the reports.
pub proof fn lemma_nearest_of_all<'a, T: PartialOrd, M>(
    lane: HitLane<'a, T, M>,
    reports: Seq<HitReport<'a, T, M>>,
)
    requires
        orders_all::<T>(),
    ensures
        lane_le(lane_after_reports(lane, reports).t, lane.t),
        forall|k: int|
            0 <= k < reports.len() && reports[k].valid ==> lane_le(
                lane_after_reports(lane, reports).t,
                #[trigger] reports[k].t,
            ),
        lane_after_reports(lane, reports) == lane || exists|k: int|
            0 <= k < reports.len() && (#[trigger] reports[k]).valid && lane_after_reports(
                lane,
                reports,
            ).t == reports[k].t && lane_after_reports(lane, reports).material == Some(
                reports[k].material,
            ),
    decreases reports.len(),
{
    if reports.len() > 0 {
        let earlier = reports.drop_last();
        let report = reports.last();
        let before = lane_after_reports(lane, earlier);
        let after = lane_after_reports(lane, reports);
        lemma_nearest_of_all(lane, earlier);
        assert(lane_le(before.t, lane.t));
        assert(lane_le(report.t, before.t) || lane_le(before.t, report.t));
        assert forall|k: int| 0 <= k < reports.len() && reports[k].valid implies lane_le(
            after.t,
            #[trigger] reports[k].t,
        ) by {
            if k < earlier.len() {
                assert(earlier[k] == reports[k]);
                assert(lane_le(before.t, earlier[k].t));
            }
        }
        if after != lane {
            if report.valid && lane_le(report.t, before.t) {
                assert(reports[reports.len() - 1].valid);
            } else {
                let k = choose|k: int|
                    0 <= k < earlier.len() && (#[trigger] earlier[k]).valid && before.t
                        == earlier[k].t && before.material == Some(earlier[k].material);
                assert(earlier[k] == reports[k]);
            }
        }
    } else {
        assert(lane_le(lane.t, lane.t));
    }
}

/// Trying the same surface on two batches of hit records that are alike
/// leaves them alike: what a batch keeps depends on nothing but what it
/// kept before and what the surface reports.
pub proof fn lemma_update_repeats<'a, T: PartialOrd, M>(
    first: Seq<HitLane<'a, T, M>>,
    second: Seq<HitLane<'a, T, M>>,
    valid: Seq<bool>,
    outward_normals: Seq<Vec3<T>>,
    t: Seq<T>,
    material: &'a M,
)
    requires
        first == second,
    ensures
        records_after(first, valid, outward_normals, t, material) == records_after(
            second,
            valid,
            outward_normals,
            t,
            material,
        ),
{
}

/// What one surface reports for the rays of a batch: for the lanes that
/// `valid` selects, the ray parameter and the outward normal of the hit.
pub struct SurfaceHits<'a, T: Scaler, M, const N: usize> {
    pub outward_normals: PackedVec3<T, N>,
    pub t: Packed<T, N>,
    pub valid: Packed<T::MaskType, N>,
    pub material: &'a M,
}

/// The lanes of a batch of hit records in which no lane has a hit yet.
pub open spec fn fresh_records<'a, T, M>(lanes: nat, far: T, blank: Vec3<T>) -> Seq<
    HitLane<'a, T, M>,
> {
    Seq::new(
        lanes,
        |i: int|
            HitLane::<'a, T, M> {
                location: blank,
                normal: blank,
                t: far,
                front_face: false,
                hit: false,
                material: None,
            },
    )
}

/// A lane of a batch of hit records once it is completed for `ray`, where
/// `unit` is the normal kept for the lane, at unit length: the hit is
/// located on the ray at the parameter kept for the lane, the ray meets
/// the front face if it goes against the normal, and the normal is turned
/// against the ray.
pub open spec fn finalized_lane<'a, T: Number, M>(
    lane: HitLane<'a, T, M>,
    ray: Ray<T>,
    unit: Vec3<T>,
    zero: T,
) -> HitLane<'a, T, M> {
    let front_face = lane_lt(ray.direction.dot_spec(unit), zero);
    HitLane {
        location: ray.at_spec(lane.t),
        normal: if front_face {
            unit
        } else {
            unit.neg_spec()
        },
        t: lane.t,
        front_face,
        hit: lane.hit,
        material: lane.material,
    }
}

/// Whether `done` is the lane `lane` completed for `ray`, with the normal
/// brought to unit length by a root that `sqrt` gives.
pub open spec fn may_finalize<'a, T: Number, M, S: Fn(T) -> T>(
    sqrt: &S,
    lane: HitLane<'a, T, M>,
    ray: Ray<T>,
    zero: T,
    done: HitLane<'a, T, M>,
) -> bool {
    exists|unit: Vec3<T>| #[trigger]
        lane.normal.has_unit(sqrt, unit) && done == finalized_lane(lane, ray, unit, zero)
}

/// For each lane of a batch of rays, the nearest hit found so far.
#[derive(Debug)]
pub struct PackedHitRecords<'a, T: Scaler, M, const N: usize> {
    locations: PackedPoint3<T, N>,
    normals: PackedVec3<T, N>,
    t: Packed<T, N>,
    front_face: Packed<T::MaskType, N>,
    hits: Packed<T::MaskType, N>,
    materials: PackedOptionalReference<'a, M, N>,
}

impl<'a, T: Scaler, M, const N: usize> View for PackedHitRecords<'a, T, M, N> {
    type V = Seq<HitLane<'a, T, M>>;

    closed spec fn view(&self) -> Seq<HitLane<'a, T, M>> {
        Seq::new(
            N as nat,
            |i: int|
                HitLane {
                    location: self.locations@[i],
                    normal: self.normals@[i],
                    t: self.t@[i],
                    front_face: self.front_face@[i].is_set(),
                    hit: self.hits@[i].is_set(),
                    material: self.materials@[i],
                },
        )
    }
}

/// A batch of hit records has exactly `N` lanes.
pub broadcast proof fn lemma_hit_records_len<'a, T: Scaler, M, const N: usize>(
    p: PackedHitRecords<'a, T, M, N>,
)
    ensures
        #[trigger] p@.len() == N,
{
}

impl<'a, T: Scaler, M, const N: usize> PackedHitRecords<'a, T, M, N> {
    /// Whether every lane that has a hit also has its material.
    pub open spec fn wf(&self) -> bool {
        forall|i: int| 0 <= i < N ==> ((#[trigger] self@[i]).hit ==> self@[i].material is Some)
    }

    /// The batch in which no lane has a hit yet. Every lane is as far away
    /// as `far`, and holds `blank` for its location and its normal.
    pub fn new(far: T, blank: Vec3<T>) -> (r: PackedHitRecords<'a, T, M, N>)
        ensures
            r.wf(),
            r@ == fresh_records::<'a, T, M>(N as nat, far, blank),
    {
        proof {
            T::MaskType::lemma_mask_laws();
        }
        let r = PackedHitRecords {
            locations: PackedVec3::splat(&blank),
            normals: PackedVec3::splat(&blank),
            t: Packed::broadcast_scaler(far),
            front_face: Packed::broadcast_bool(false),
            hits: Packed::broadcast_bool(false),
            materials: PackedOptionalReference::nones(),
        };
        assert(r@ =~= fresh_records::<'a, T, M>(N as nat, far, blank));
        r
    }

    /// Takes in what one surface reports for the rays of a batch: `t` and
    /// `outward_normals` for the lanes that `valid_mask` selects. A lane
    /// keeps the nearer of its hit and the new one; see [`hit_lane_after`].
    pub fn update(
        &mut self,
        rays: &PackedRays<T, N>,
        outward_normals: &PackedVec3<T, N>,
        t: &Packed<T, N>,
        valid_mask: &Packed<T::MaskType, N>,
        material: &'a M,
    ) where T: PartialOrd
        requires
            old(self).wf(),
        ensures
            final(self).wf(),
            obeys_order::<T, T>() ==> final(self)@ == records_after(
                old(self)@,
                valid_mask.bits(),
                outward_normals@,
                t@,
                material,
            ),
    {
        proof {
            T::MaskType::lemma_mask_laws();
        }
        let not_farther = PackedPartialOrd::le(t, &self.t);
        let update_mask = valid_mask.bitand(not_farther);
        self.normals.assign_masked(outward_normals, update_mask);
        masked_assign(&mut self.t, *t, update_mask);
        self.hits = self.hits.bitor(update_mask);
        self.materials.assign_masked(&PackedOptionalReference::splat(Some(material)), update_mask);
        proof {
            assert forall|i: int| 0 <= i < N && (#[trigger] self@[i]).hit implies self@[i].material is Some by {
                assert(old(self)@[i].hit ==> old(self)@[i].material is Some);
            }
            if obeys_order::<T, T>() {
                assert forall|i: int| 0 <= i < N implies self@[i] == hit_lane_after(
                    old(self)@[i],
                    valid_mask@[i].is_set(),
                    outward_normals@[i],
                    t@[i],
                    material,
                ) by {
                    assert(not_farther@[i] == mask_word::<T::MaskType>(
                        lane_le(t@[i], old(self).t@[i]),
                    ));
                    assert(old(self)@[i].hit ==> old(self)@[i].material is Some);
                }
                assert(self@ =~= records_after(
                    old(self)@,
                    valid_mask.bits(),
                    outward_normals@,
                    t@,
                    material,
                ));
            }
        }
    }

    /// Completes the records once every surface was tried on `rays`; see
    /// [`finalized_lane`]. The normals are brought to unit length with the
    /// roots that `sqrt` gives.
    pub fn finalize<S: Fn(T) -> T>(&mut self, rays: &PackedRays<T, N>, zero: T, sqrt: &S) where
        T: Number,

        requires
            old(self).wf(),
            total_arithmetic::<T>(),
            answers_all(sqrt),
        ensures
            final(self).wf(),
            forall|i: int|
                0 <= i < N ==> may_finalize(
                    sqrt,
                    old(self)@[i],
                    rays@[i].ray,
                    zero,
                    #[trigger] final(self)@[i],
                ),
    {
        proof {
            T::MaskType::lemma_mask_laws();
        }
        let outward = self.normals.unit_vector(sqrt);
        self.locations = rays.at_t(self.t);
        let facing = rays.directions().dot(&outward);
        self.front_face = PackedScalerPartialOrd::lt(&facing, &zero);
        let back_face = self.front_face.not();
        self.normals = outward;
        self.normals.assign_masked(&outward.neg(), back_face);
        proof {
            assert forall|i: int| 0 <= i < N && (#[trigger] self@[i]).hit implies self@[i].material is Some by {
                assert(old(self)@[i].hit ==> old(self)@[i].material is Some);
            }
            assert forall|i: int| 0 <= i < N implies may_finalize(
                sqrt,
                old(self)@[i],
                rays@[i].ray,
                zero,
                #[trigger] self@[i],
            ) by {
                let unit = outward@[i];
                assert(old(self)@[i].normal.has_unit(sqrt, unit));
                assert(facing@[i] == rays@[i].ray.direction.dot_spec(unit));
                assert(back_face.bits()[i] == !self.front_face@[i].is_set());
                assert(self@[i] == finalized_lane(old(self)@[i], rays@[i].ray, unit, zero));
            }
        }
    }

    /// The record of lane `index`, or nothing if that lane has no hit.
    pub fn at(&self, index: usize) -> (r: Option<HitRecord<'a, T, M>>)
        requires
            self.wf(),
            index < N,
        ensures
            r == self@[index as int].record(),
    {
        if self.hits.at(index).to_bool() {
            assert(self@[index as int].hit);
            Some(
                HitRecord {
                    location: self.locations.at(index),
                    normal: self.normals.at(index),
                    t: self.t.at(index),
                    front_face: self.front_face.at(index).to_bool(),
                    material: self.materials.at(index).unwrap(),
                },
            )
        } else {
            None
        }
    }

    /// Asks `scatter`, for each enabled lane that has a hit, what the
    /// surface makes of the ray of that lane. The other lanes come back
    /// empty.
    pub fn scatter<S>(&self, rays: &PackedRays<T, N>, scatter: &S) -> (r: [Option<HitResult<T>>; N]) where
        S: Fn(&HitRecord<'a, T, M>, &Ray<T>) -> HitResult<T>,

        requires
            self.wf(),
            forall|record: &HitRecord<'a, T, M>, ray: &Ray<T>| #[trigger]
                scatter.requires((record, ray)),
        ensures
            forall|i: int|
                0 <= i < N ==> (#[trigger] r@[i] matches Some(result) ==> self@[i].hit
                    && rays@[i].enabled && scatter.ensures(
                    (
                        &HitRecord {
                            location: self@[i].location,
                            normal: self@[i].normal,
                            t: self@[i].t,
                            front_face: self@[i].front_face,
                            material: self@[i].material.unwrap(),
                        },
                        &rays@[i].ray,
                    ),
                    result,
                )),
            forall|i: int|
                0 <= i < N ==> (#[trigger] r@[i] is Some <==> self@[i].hit && rays@[i].enabled),
    {
        let mut r: [Option<HitResult<T>>; N] = [None;N];
        let mut i: usize = 0;
        while i < N
            invariant
                i <= N,
                self.wf(),
                forall|record: &HitRecord<'a, T, M>, ray: &Ray<T>| #[trigger]
                    scatter.requires((record, ray)),
                forall|j: int| i <= j < N ==> #[trigger] r@[j] is None,
                forall|j: int|
                    0 <= j < i ==> (#[trigger] r@[j] matches Some(result) ==> self@[j].hit
                        && rays@[j].enabled && scatter.ensures(
                        (
                            &HitRecord {
                                location: self@[j].location,
                                normal: self@[j].normal,
                                t: self@[j].t,
                                front_face: self@[j].front_face,
                                material: self@[j].material.unwrap(),
                            },
                            &rays@[j].ray,
                        ),
                        result,
                    )),
                forall|j: int|
                    0 <= j < i ==> (#[trigger] r@[j] is Some <==> self@[j].hit
                        && rays@[j].enabled),
            decreases N - i,
        {
            match (self.at(i), rays.at(i)) {
                (Some(hit_record), Some(ray)) => {
                    let result = scatter(&hit_record, &ray);
                    r[i] = Some(result);
                },
                _ => {},
            }
            i += 1;
        }
        r
    }

    /// Where the hits of all lanes are.
    pub fn locations(&self) -> (r: PackedPoint3<T, N>)
        ensures
            r@ == Seq::new(N as nat, |i: int| self@[i].location),
    {
        assert(self.locations@ =~= Seq::new(N as nat, |i: int| self@[i].location));
        self.locations
    }

    /// The normals of all lanes.
    pub fn normals(&self) -> (r: PackedVec3<T, N>)
        ensures
            r@ == Seq::new(N as nat, |i: int| self@[i].normal),
    {
        assert(self.normals@ =~= Seq::new(N as nat, |i: int| self@[i].normal));
        self.normals
    }

    /// The ray parameters of all lanes.
    pub fn t(&self) -> (r: Packed<T, N>)
        ensures
            r@ == Seq::new(N as nat, |i: int| self@[i].t),
    {
        assert(self.t@ =~= Seq::new(N as nat, |i: int| self@[i].t));
        self.t
    }

    /// The mask of the lanes that have a hit.
    pub fn hits(&self) -> (r: Packed<T::MaskType, N>)
        ensures
            r.bits() == Seq::new(N as nat, |i: int| self@[i].hit),
    {
        assert(self.hits.bits() =~= Seq::new(N as nat, |i: int| self@[i].hit));
        self.hits
    }

    /// The mask of the lanes whose ray met the outer side of its surface.
    pub fn front_face(&self) -> (r: Packed<T::MaskType, N>)
        ensures
            r.bits() == Seq::new(N as nat, |i: int| self@[i].front_face),
    {
        assert(self.front_face.bits() =~= Seq::new(N as nat, |i: int| self@[i].front_face));
        self.front_face
    }
}

/// Whether the parameter `t` lies in the range from `start`, included, to
/// `end`, excluded.
pub open spec fn in_range<T: PartialOrd>(t: T, start: T, end: T) -> bool {
    lane_ge(t, start) && lane_lt(t, end)
}

/// The parameter at which a ray is taken to meet a surface that it crosses
/// at `near` and again at `far`: the first of the two that lies in the
/// range, if either does.
pub open spec fn chosen_root<T: PartialOrd>(near: T, far: T, start: T, end: T) -> Option<T> {
    if in_range(near, start, end) {
        Some(near)
    } else if in_range(far, start, end) {
        Some(far)
    } else {
        None
    }
}

/// A ball of a given material.
#[derive(Clone, Debug)]
pub struct Sphere<T, M> {
    center: Point3<T>,
    radius: T,
    material: M,
}

impl<T: Copy, M> Sphere<T, M> {
    pub closed spec fn spec_center(&self) -> Point3<T> {
        self.center
    }

    pub closed spec fn spec_radius(&self) -> T {
        self.radius
    }

    pub closed spec fn spec_material(&self) -> M {
        self.material
    }

    pub fn new(center: Point3<T>, radius: T, material: M) -> (r: Sphere<T, M>)
        ensures
            r.spec_center() == center,
            r.spec_radius() == radius,
            r.spec_material() == material,
    {
        Sphere { center, radius, material }
    }

    pub fn center(&self) -> (r: Point3<T>)
        ensures
            r == self.spec_center(),
    {
        self.center
    }

    pub fn radius(&self) -> (r: T)
        ensures
            r == self.spec_radius(),
    {
        self.radius
    }

    pub fn material(&self) -> (r: &M)
        ensures
            *r == self.spec_material(),
    {
        &self.material
    }

    /// Which of the two crossings of a ray with the ball counts as the
    /// hit: `near` if it lies in `t_range`, else `far` if that does, else
    /// none.
    pub fn choose_root(near: T, far: T, t_range: &Range<T>) -> (r: Option<T>) where T: PartialOrd
        ensures
            obeys_order::<T, T>() ==> r == chosen_root(near, far, t_range.start, t_range.end),
    {
        if near >= t_range.start && near < t_range.end {
            Some(near)
        } else if far >= t_range.start && far < t_range.end {
            Some(far)
        } else {
            None
        }
    }

    /// [`Sphere::choose_root`] for every lane of a batch. A lane has a hit
    /// if it is enabled, its `discriminant` is not below `zero`, and one of
    /// its two crossings lies in `t_range`; `roots` holds the crossing that
    /// counts, and `valid` selects the lanes that have a hit.
    pub fn choose_roots<const N: usize>(
        near: &Packed<T, N>,
        far: &Packed<T, N>,
        t_range: &Range<T>,
        discriminant: &Packed<T, N>,
        zero: T,
        enabled: &Packed<T::MaskType, N>,
    ) -> (r: (Packed<T, N>, Packed<T::MaskType, N>)) where T: Scaler + PartialOrd
        ensures
            r.1.is_mask(),
            obeys_order::<T, T>() ==> {
                &&& r.0@ == Seq::new(
                    N as nat,
                    |i: int|
                        if in_range(near@[i], t_range.start, t_range.end) {
                            near@[i]
                        } else {
                            far@[i]
                        },
                )
                &&& r.1@ == mask_words::<T::MaskType>(
                    Seq::new(
                        N as nat,
                        |i: int|
                            enabled@[i].is_set() && lane_ge(discriminant@[i], zero) && chosen_root(
                                near@[i],
                                far@[i],
                                t_range.start,
                                t_range.end,
                            ) is Some,
                    ),
                )
                &&& forall|i: int|
                    0 <= i < N && (#[trigger] r.1@[i]).is_set() ==> chosen_root(
                        near@[i],
                        far@[i],
                        t_range.start,
                        t_range.end,
                    ) == Some(r.0@[i])
            },
    {
        proof {
            T::MaskType::lemma_mask_laws();
        }
        let solvable = PackedScalerPartialOrd::ge(discriminant, &zero);
        let near_valid = simd_inside(near, t_range);
        let far_valid = simd_inside(far, t_range);
        let roots = masked_select(*far, *near, near_valid);
        let either = near_valid.bitor(far_valid);
        let live = enabled.bitand(solvable);
        let valid = live.bitand(either).canonical();
        proof {
            if obeys_order::<T, T>() {
                assert(roots@ =~= Seq::new(
                    N as nat,
                    |i: int|
                        if in_range(near@[i], t_range.start, t_range.end) {
                            near@[i]
                        } else {
                            far@[i]
                        },
                ));
                assert(valid@ =~= mask_words::<T::MaskType>(
                    Seq::new(
                        N as nat,
                        |i: int|
                            enabled@[i].is_set() && lane_ge(discriminant@[i], zero) && chosen_root(
                                near@[i],
                                far@[i],
                                t_range.start,
                                t_range.end,
                            ) is Some,
                    ),
                ));
            }
        }
        (roots, valid)
    }
}

impl<T: Number, M> Sphere<T, M> {
    /// The discriminant of the equation that says where `ray` crosses the
    /// ball, with half the middle coefficient: for the offset `o` of the
    /// origin from the center and the direction `d`, the square of `o.d`
    /// less `d.d` times `o.o` less the square of the radius.
    pub open spec fn discriminant(&self, ray: Ray<T>) -> T {
        let center_offset = ray.origin.sub_spec(self.spec_center());
        let a = ray.direction.dot_spec(ray.direction);
        let half_b = center_offset.dot_spec(ray.direction);
        let c = center_offset.dot_spec(center_offset).sub_spec(
            self.spec_radius().mul_spec(self.spec_radius()),
        );
        half_b.mul_spec(half_b).sub_spec(a.mul_spec(c))
    }

    /// The parameter at which `ray` enters the ball, where `root` is the
    /// root of the discriminant.
    pub open spec fn near_crossing(&self, ray: Ray<T>, root: T) -> T {
        let center_offset = ray.origin.sub_spec(self.spec_center());
        let a = ray.direction.dot_spec(ray.direction);
        let half_b = center_offset.dot_spec(ray.direction);
        half_b.neg_spec().sub_spec(root).div_spec(a)
    }

    /// The parameter at which `ray` leaves the ball, where `root` is the
    /// root of the discriminant.
    pub open spec fn far_crossing(&self, ray: Ray<T>, root: T) -> T {
        let center_offset = ray.origin.sub_spec(self.spec_center());
        let a = ray.direction.dot_spec(ray.direction);
        let half_b = center_offset.dot_spec(ray.direction);
        half_b.neg_spec().add_spec(root).div_spec(a)
    }

    /// The record of the hit of `ray` at the parameter `t`: the normal
    /// leads from the center to the place of the hit and is divided by the
    /// radius.
    pub open spec fn hit_at<'a>(&'a self, ray: Ray<T>, t: T, zero: T) -> HitRecord<'a, T, M> {
        let location = ray.at_spec(t);
        HitRecord::new_spec(
            ray,
            location,
            location.sub_spec(self.spec_center()).div_spec(self.spec_radius()),
            t,
            &self.spec_material(),
            zero,
        )
    }

    /// The hit of `ray` on the ball within the range from `start` to
    /// `end`, where `root` is the root of the discriminant: none if the
    /// discriminant is below `zero`, and else the hit at the crossing that
    /// [`chosen_root`] takes, if it takes one.
    pub open spec fn hit_with<'a>(
        &'a self,
        ray: Ray<T>,
        start: T,
        end: T,
        zero: T,
        root: T,
    ) -> Option<HitRecord<'a, T, M>> {
        if lane_lt(self.discriminant(ray), zero) {
            None
        } else {
            match chosen_root(
                self.near_crossing(ray, root),
                self.far_crossing(ray, root),
                start,
                end,
            ) {
                Some(t) => Some(self.hit_at(ray, t, zero)),
                None => None,
            }
        }
    }

    /// Whether `found` is the hit of `ray` on the ball for a root of the
    /// discriminant that `sqrt` gives. Of a discriminant below `zero` no
    /// root is asked.
    pub open spec fn may_hit<'a, S: Fn(T) -> T>(
        &'a self,
        sqrt: &S,
        ray: Ray<T>,
        start: T,
        end: T,
        zero: T,
        found: Option<HitRecord<'a, T, M>>,
    ) -> bool {
        if lane_lt(self.discriminant(ray), zero) {
            found is None
        } else {
            exists|root: T| #[trigger]
                sqrt.ensures((self.discriminant(ray),), root) && found == self.hit_with(
                    ray,
                    start,
                    end,
                    zero,
                    root,
                )
        }
    }

    /// Where `ray` hits the ball within `t_range`, if it does: at the
    /// nearer of its two crossings that lies in the range.
    pub fn hit<'a, S: Fn(T) -> T>(
        &'a self,
        ray: &Ray<T>,
        t_range: &Range<T>,
        zero: T,
        sqrt: &S,
    ) -> (r: Option<HitRecord<'a, T, M>>)
        requires
            total_arithmetic::<T>(),
            answers_all(sqrt),
        ensures
            self.may_hit(sqrt, *ray, t_range.start, t_range.end, zero, r),
    {
        let center_offset = ray.origin().sub(self.center);
        let a = ray.direction().length_squared();
        let half_b = center_offset.dot(&ray.direction());
        let c = center_offset.length_squared() - self.radius * self.radius;
        let discriminant = half_b * half_b - a * c;
        assert(discriminant == self.discriminant(*ray));
        if discriminant < zero {
            return None;
        }
        let root = sqrt(discriminant);
        let near = (half_b.neg() - root) / a;
        let far = (half_b.neg() + root) / a;
        assert(near == self.near_crossing(*ray, root));
        assert(far == self.far_crossing(*ray, root));
        let r = match Self::choose_root(near, far, t_range) {
            Some(t) => {
                let location = ray.at(t);
                Some(
                    HitRecord::new(
                        ray,
                        location,
                        location.sub(self.center).div(self.radius),
                        t,
                        &self.material,
                        zero,
                    ),
                )
            },
            None => None,
        };
        assert(r == self.hit_with(*ray, t_range.start, t_range.end, zero, root));
        r
    }
}

/// What a surface reports for the ray of one lane: whether it counts as
/// hit, and the parameter and the outward normal of the hit.
pub struct LaneReport<T> {
    pub valid: bool,
    pub t: T,
    pub outward_normal: Vec3<T>,
}

impl<T: Number + Scaler, M> Sphere<T, M> {
    /// What the ball reports for a lane that holds `ray`, where `root` is
    /// the root of the discriminant. The lane is hit if it is enabled, the
    /// discriminant is not below `zero`, and [`chosen_root`] takes one of
    /// the two crossings; the parameter is the near crossing where that
    /// lies in the range and the far one elsewhere, and the normal leads
    /// from the center to the point of the ray at that parameter.
    pub open spec fn lane_report_with(
        &self,
        ray: Ray<T>,
        enabled: bool,
        start: T,
        end: T,
        zero: T,
        root: T,
    ) -> LaneReport<T> {
        let near = self.near_crossing(ray, root);
        let far = self.far_crossing(ray, root);
        let t = if in_range(near, start, end) {
            near
        } else {
            far
        };
        LaneReport {
            valid: enabled && lane_ge(self.discriminant(ray), zero) && chosen_root(
                near,
                far,
                start,
                end,
            ) is Some,
            t,
            outward_normal: ray.at_spec(t).sub_spec(self.spec_center()),
        }
    }

    /// Whether `report` is what the ball reports for a lane that holds
    /// `ray`, for a root of the discriminant that `sqrt` gives.
    pub open spec fn may_report<S: Fn(T) -> T>(
        &self,
        sqrt: &S,
        ray: Ray<T>,
        enabled: bool,
        start: T,
        end: T,
        zero: T,
        report: LaneReport<T>,
    ) -> bool {
        exists|root: T| #[trigger]
            sqrt.ensures((self.discriminant(ray),), root) && report == self.lane_report_with(
                ray,
                enabled,
                start,
                end,
                zero,
                root,
            )
    }

    /// Whether the equation of the ball and the ray of some enabled lane
    /// can be solved: its discriminant is not below `zero`.
    pub open spec fn any_solvable<const N: usize>(&self, rays: &PackedRays<T, N>, zero: T) -> bool {
        exists|i: int|
            0 <= i < N && (#[trigger] rays@[i]).enabled && lane_ge(
                self.discriminant(rays@[i].ray),
                zero,
            )
    }

    /// What the ball reports for the rays of a batch within `t_range`:
    /// nothing where no enabled lane has an equation that can be solved,
    /// and else for every lane what [`Sphere::lane_report_with`] says.
    pub fn report<'a, const N: usize, S: Fn(T) -> T>(
        &'a self,
        rays: &PackedRays<T, N>,
        t_range: &Range<T>,
        zero: T,
        sqrt: &S,
    ) -> (r: Option<SurfaceHits<'a, T, M, N>>)
        requires
            total_arithmetic::<T>(),
            answers_all(sqrt),
        ensures
            r is Some <==> self.any_solvable(rays, zero),
            r matches Some(hits) ==> hits.valid.is_mask() && self.may_report_all(
                sqrt,
                rays,
                t_range.start,
                t_range.end,
                zero,
                hits,
            ),
    {
        proof {
            T::MaskType::lemma_mask_laws();
        }
        let center = PackedVec3::splat(&self.center);
        let center_offset = rays.origins().sub(center);
        let a = rays.directions().length_squared();
        let half_b = center_offset.dot(&rays.directions());
        let c = center_offset.length_squared().sub(
            Packed::broadcast_scaler(self.radius * self.radius),
        );
        let discriminant = half_b.mul(half_b).sub(a.mul(c));
        assert forall|i: int| 0 <= i < N implies #[trigger] discriminant@[i] == self.discriminant(
            rays@[i].ray,
        ) by {}
        let solvable = PackedScalerPartialOrd::ge(&discriminant, &zero);
        let enabled = rays.enabled();
        let live = solvable.bitand(enabled);
        assert forall|i: int| 0 <= i < N implies (#[trigger] live@[i]).is_set() == (
        rays@[i].enabled && lane_ge(self.discriminant(rays@[i].ray), zero)) by {
            assert(live.bits()[i] == (solvable@[i].is_set() && enabled@[i].is_set()));
            assert(enabled.bits()[i] == rays@[i].enabled);
            assert(discriminant@[i] == self.discriminant(rays@[i].ray));
        }
        if !live.any() {
            proof {
                assert forall|i: int| 0 <= i < N implies !((#[trigger] rays@[i]).enabled && lane_ge(
                    self.discriminant(rays@[i].ray),
                    zero,
                )) by {
                    assert(!live@[i].is_set());
                }
            }
            return None;
        }
        proof {
            let lane = choose|i: int| 0 <= i < N && live@[i].is_set();
            assert(rays@[lane].enabled && lane_ge(self.discriminant(rays@[lane].ray), zero));
        }
        let roots = discriminant.map(sqrt);
        let neg_half_b = half_b.neg();
        let near = neg_half_b.sub(roots).div(a);
        let far = neg_half_b.add(roots).div(a);
        let (t, valid) = Self::choose_roots(&near, &far, t_range, &discriminant, zero, &enabled);
        let locations = rays.at_t(t);
        let hits = SurfaceHits {
            outward_normals: locations.sub(center),
            t,
            valid,
            material: &self.material,
        };
        proof {
            assert forall|i: int| 0 <= i < N implies self.may_report(
                sqrt,
                rays@[i].ray,
                rays@[i].enabled,
                t_range.start,
                t_range.end,
                zero,
                LaneReport {
                    valid: (#[trigger] hits.valid@[i]).is_set(),
                    t: hits.t@[i],
                    outward_normal: hits.outward_normals@[i],
                },
            ) by {
                let ray = rays@[i].ray;
                assert(discriminant@[i] == self.discriminant(ray));
                assert(sqrt.ensures((discriminant@[i],), roots@[i]));
                assert(near@[i] == self.near_crossing(ray, roots@[i]));
                assert(far@[i] == self.far_crossing(ray, roots@[i]));
                assert(enabled.bits()[i] == rays@[i].enabled);
                assert(locations@[i] == ray.at_spec(t@[i]));
                assert(LaneReport {
                    valid: hits.valid@[i].is_set(),
                    t: hits.t@[i],
                    outward_normal: hits.outward_normals@[i],
                } == self.lane_report_with(
                    ray,
                    rays@[i].enabled,
                    t_range.start,
                    t_range.end,
                    zero,
                    roots@[i],
                ));
            }
        }
        Some(hits)
    }

    /// Whether `hits` is what the ball reports for the rays of the batch:
    /// its material, and for every lane what [`Sphere::may_report`] allows.
    pub open spec fn may_report_all<'a, const N: usize, S: Fn(T) -> T>(
        &'a self,
        sqrt: &S,
        rays: &PackedRays<T, N>,
        start: T,
        end: T,
        zero: T,
        hits: SurfaceHits<'a, T, M, N>,
    ) -> bool {
        &&& *hits.material == self.spec_material()
        &&& forall|i: int|
            0 <= i < N ==> self.may_report(
                sqrt,
                rays@[i].ray,
                rays@[i].enabled,
                start,
                end,
                zero,
                LaneReport {
                    valid: (#[trigger] hits.valid@[i]).is_set(),
                    t: hits.t@[i],
                    outward_normal: hits.outward_normals@[i],
                },
            )
    }

    /// Tries the ball on the rays of a batch and takes what it reports into
    /// `hit_records`; see [`Sphere::report`] and
    /// [`PackedHitRecords::update`].
    pub fn hit_packed<'a, const N: usize, S: Fn(T) -> T>(
        &'a self,
        rays: &PackedRays<T, N>,
        t_range: &Range<T>,
        hit_records: &mut PackedHitRecords<'a, T, M, N>,
        zero: T,
        sqrt: &S,
    )
        requires
            total_arithmetic::<T>(),
            answers_all(sqrt),
            old(hit_records).wf(),
        ensures
            final(hit_records).wf(),
            !self.any_solvable(rays, zero) ==> final(hit_records)@ == old(hit_records)@,
            self.any_solvable(rays, zero) ==> exists|hits: SurfaceHits<'a, T, M, N>| #[trigger]
                self.may_report_all(sqrt, rays, t_range.start, t_range.end, zero, hits)
                    && final(hit_records)@ == records_after(
                    old(hit_records)@,
                    hits.valid.bits(),
                    hits.outward_normals@,
                    hits.t@,
                    hits.material,
                ),
    {
        match self.report(rays, t_range, zero, sqrt) {
            Some(hits) => {
                hit_records.update(rays, &hits.outward_normals, &hits.t, &hits.valid, hits.material);
                assert(self.may_report_all(sqrt, rays, t_range.start, t_range.end, zero, hits));
            },
            None => {},
        }
    }
}

/// A surface of a scene.
#[derive(Clone, Debug)]
pub enum Object<T, M> {
    Sphere(Sphere<T, M>),
}

impl<T: Number, M> Object<T, M> {
    /// Whether `found` is the hit of `ray` on the surface; see
    /// [`Sphere::may_hit`].
    pub open spec fn may_hit<'a, S: Fn(T) -> T>(
        &'a self,
        sqrt: &S,
        ray: Ray<T>,
        start: T,
        end: T,
        zero: T,
        found: Option<HitRecord<'a, T, M>>,
    ) -> bool {
        match self {
            Object::Sphere(sphere) => sphere.may_hit(sqrt, ray, start, end, zero, found),
        }
    }

    /// Where `ray` hits the surface within `t_range`, if it does.
    pub fn hit<'a, S: Fn(T) -> T>(
        &'a self,
        ray: &Ray<T>,
        t_range: &Range<T>,
        zero: T,
        sqrt: &S,
    ) -> (r: Option<HitRecord<'a, T, M>>)
        requires
            total_arithmetic::<T>(),
            answers_all(sqrt),
        ensures
            self.may_hit(sqrt, *ray, t_range.start, t_range.end, zero, r),
    {
        match self {
            Object::Sphere(sphere) => sphere.hit(ray, t_range, zero, sqrt),
        }
    }
}

impl<T: Number + Scaler, M> Object<T, M> {
    /// Whether the surface reports anything for the rays of the batch; see
    /// [`Sphere::any_solvable`].
    pub open spec fn reports<const N: usize>(&self, rays: &PackedRays<T, N>, zero: T) -> bool {
        match self {
            Object::Sphere(sphere) => sphere.any_solvable(rays, zero),
        }
    }

    /// Whether `hits` is what the surface reports for the rays of the
    /// batch; see [`Sphere::may_report`].
    pub open spec fn may_report<'a, const N: usize, S: Fn(T) -> T>(
        &'a self,
        sqrt: &S,
        rays: &PackedRays<T, N>,
        start: T,
        end: T,
        zero: T,
        hits: SurfaceHits<'a, T, M, N>,
    ) -> bool {
        match self {
            Object::Sphere(sphere) => sphere.may_report_all(sqrt, rays, start, end, zero, hits),
        }
    }

    /// The lanes of a batch of hit records once the surface was tried on
    /// `rays`: as before where it reports nothing, and else with what it
    /// reports taken in.
    pub open spec fn may_leave<'a, const N: usize, S: Fn(T) -> T>(
        &'a self,
        sqrt: &S,
        rays: &PackedRays<T, N>,
        start: T,
        end: T,
        zero: T,
        before: Seq<HitLane<'a, T, M>>,
        after: Seq<HitLane<'a, T, M>>,
    ) -> bool {
        if self.reports(rays, zero) {
            exists|hits: SurfaceHits<'a, T, M, N>| #[trigger]
                self.may_report(sqrt, rays, start, end, zero, hits) && after == records_after(
                    before,
                    hits.valid.bits(),
                    hits.outward_normals@,
                    hits.t@,
                    hits.material,
                )
        } else {
            after == before
        }
    }

    /// What the surface reports for the rays of a batch within `t_range`.
    pub fn report<'a, const N: usize, S: Fn(T) -> T>(
        &'a self,
        rays: &PackedRays<T, N>,
        t_range: &Range<T>,
        zero: T,
        sqrt: &S,
    ) -> (r: Option<SurfaceHits<'a, T, M, N>>)
        requires
            total_arithmetic::<T>(),
            answers_all(sqrt),
        ensures
            r is Some <==> self.reports(rays, zero),
            r matches Some(hits) ==> hits.valid.is_mask() && self.may_report(
                sqrt,
                rays,
                t_range.start,
                t_range.end,
                zero,
                hits,
            ),
    {
        match self {
            Object::Sphere(sphere) => sphere.report(rays, t_range, zero, sqrt),
        }
    }

    /// Tries the surface on the rays of a batch and takes what it reports
    /// into `hit_records`.
    pub fn hit_packed<'a, const N: usize, S: Fn(T) -> T>(
        &'a self,
        rays: &PackedRays<T, N>,
        t_range: &Range<T>,
        hit_records: &mut PackedHitRecords<'a, T, M, N>,
        zero: T,
        sqrt: &S,
    )
        requires
            total_arithmetic::<T>(),
            answers_all(sqrt),
            old(hit_records).wf(),
        ensures
            final(hit_records).wf(),
            self.may_leave(
                sqrt,
                rays,
                t_range.start,
                t_range.end,
                zero,
                old(hit_records)@,
                final(hit_records)@,
            ),
    {
        match self.report(rays, t_range, zero, sqrt) {
            Some(hits) => {
                hit_records.update(rays, &hits.outward_normals, &hits.t, &hits.valid, hits.material);
            },
            None => {},
        }
    }
}

/// A hit on a ball lies on the ray: its place is the point of the ray at
/// its parameter, the parameter is one of the two crossings and lies in
/// the range, and the material is that of the ball.
pub proof fn lemma_hit_lies_on_ray<T: Number, M>(
    sphere: &Sphere<T, M>,
    ray: Ray<T>,
    start: T,
    end: T,
    zero: T,
    root: T,
)
    ensures
        sphere.hit_with(ray, start, end, zero, root) matches Some(record) ==> {
            &&& record.location == ray.at_spec(record.t)
            &&& in_range(record.t, start, end)
            &&& record.t == sphere.near_crossing(ray, root) || record.t == sphere.far_crossing(
                ray,
                root,
            )
            &&& in_range(sphere.near_crossing(ray, root), start, end) ==> record.t
                == sphere.near_crossing(ray, root)
            &&& *record.material == sphere.spec_material()
        },
{
}

/// A lane of a batch is hit where its ray alone is hit, and at the same
/// parameter: what a ball reports for an enabled lane counts as a hit if
/// the ray of the lane hits the ball, and only then, provided that the
/// discriminant compares with `zero` at all.
pub proof fn lemma_report_agrees_with_hit<T: Number + Scaler, M>(
    sphere: &Sphere<T, M>,
    ray: Ray<T>,
    enabled: bool,
    start: T,
    end: T,
    zero: T,
    root: T,
)
    ensures
        ({
            let report = sphere.lane_report_with(ray, enabled, start, end, zero, root);
            let alone = sphere.hit_with(ray, start, end, zero, root);
            &&& report.valid ==> enabled && alone is Some && alone.unwrap().t == report.t
                && alone.unwrap().location == ray.at_spec(report.t)
            &&& enabled && alone is Some && (lane_lt(sphere.discriminant(ray), zero) || lane_ge(
                sphere.discriminant(ray),
                zero,
            )) ==> report.valid
            &&& !enabled ==> !report.valid
        }),
{
}

/// Trying a surface twice on the same rays, from the same records, leaves
/// the same records, as long as `sqrt` gives one root for each number.
pub proof fn lemma_hit_packed_repeats<'a, T: Number + Scaler, M, const N: usize, S: Fn(T) -> T>(
    object: &'a Object<T, M>,
    sqrt: &S,
    root: spec_fn(T) -> T,
    rays: &PackedRays<T, N>,
    start: T,
    end: T,
    zero: T,
    before: Seq<HitLane<'a, T, M>>,
    first: Seq<HitLane<'a, T, M>>,
    second: Seq<HitLane<'a, T, M>>,
)
    requires
        computes(sqrt, root),
        object.may_leave(sqrt, rays, start, end, zero, before, first),
        object.may_leave(sqrt, rays, start, end, zero, before, second),
    ensures
        first == second,
{
    if object.reports(rays, zero) {
        let one = choose|hits: SurfaceHits<'a, T, M, N>| #[trigger]
            object.may_report(sqrt, rays, start, end, zero, hits) && first == records_after(
                before,
                hits.valid.bits(),
                hits.outward_normals@,
                hits.t@,
                hits.material,
            );
        let two = choose|hits: SurfaceHits<'a, T, M, N>| #[trigger]
            object.may_report(sqrt, rays, start, end, zero, hits) && second == records_after(
                before,
                hits.valid.bits(),
                hits.outward_normals@,
                hits.t@,
                hits.material,
            );
        match object {
            Object::Sphere(sphere) => {
                assert forall|i: int| 0 <= i < N implies one.valid@[i].is_set()
                    == two.valid@[i].is_set() && one.t@[i] == two.t@[i]
                    && one.outward_normals@[i] == two.outward_normals@[i] by {
                    let at = root(sphere.discriminant(rays@[i].ray));
                    let told = sphere.lane_report_with(
                        rays@[i].ray,
                        rays@[i].enabled,
                        start,
                        end,
                        zero,
                        at,
                    );
                    assert(LaneReport {
                        valid: one.valid@[i].is_set(),
                        t: one.t@[i],
                        outward_normal: one.outward_normals@[i],
                    } == told);
                    assert(LaneReport {
                        valid: two.valid@[i].is_set(),
                        t: two.t@[i],
                        outward_normal: two.outward_normals@[i],
                    } == told);
                }
                assert(one.valid.bits() =~= two.valid.bits());
                assert(one.t@ =~= two.t@);
                assert(one.outward_normals@ =~= two.outward_normals@);
                assert(one.material == two.material);
            },
        }
    }
}

} // verus!
