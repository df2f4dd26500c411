use raytracer::color::Color;
use raytracer::geometry::{PackedVec3, Vec3};
use raytracer::objects::{nearest, HitRecord, HitResult, Object, PackedHitRecords, Sphere};
use raytracer::packed::{Packed, Scaler};
use raytracer::ray::{PackedRays, Ray};
use std::ops::{Add, Div, Mul, Neg, Sub};

#[derive(Clone, Copy, Debug, PartialEq, PartialOrd)]
struct Real(f64);

impl Scaler for Real {
    type MaskType = u64;
}

impl Add for Real {
    type Output = Real;

    fn add(self, rhs: Real) -> Real {
        Real(self.0 + rhs.0)
    }
}

impl Sub for Real {
    type Output = Real;

    fn sub(self, rhs: Real) -> Real {
        Real(self.0 - rhs.0)
    }
}

impl Mul for Real {
    type Output = Real;

    fn mul(self, rhs: Real) -> Real {
        Real(self.0 * rhs.0)
    }
}

impl Div for Real {
    type Output = Real;

    fn div(self, rhs: Real) -> Real {
        Real(self.0 / rhs.0)
    }
}

impl Neg for Real {
    type Output = Real;

    fn neg(self) -> Real {
        Real(-self.0)
    }
}

const ZERO: Real = Real(0.0);

fn sqrt(x: Real) -> Real {
    Real(x.0.sqrt())
}

fn t_range() -> std::ops::Range<Real> {
    Real(0.001)..FAR
}

fn head_on() -> Ray<Real> {
    Ray::new(v(0.0, 0.0, 0.0), v(0.0, 0.0, -1.0))
}

const ON: u64 = u64::MAX;
const OFF: u64 = 0;
const FAR: Real = Real(f64::INFINITY);

fn v(x: f64, y: f64, z: f64) -> Vec3<Real> {
    Vec3::new(Real(x), Real(y), Real(z))
}

fn reals<const N: usize>(values: [f64; N]) -> Packed<Real, N> {
    let mut packed = Packed::broadcast_scaler(Real(0.0));
    for i in 0..N {
        packed.update(i, Real(values[i]));
    }
    packed
}

fn rays<const N: usize>() -> PackedRays<Real, N> {
    PackedRays::new(PackedVec3::splat(&v(0.0, 0.0, 0.0)), PackedVec3::splat(&v(0.0, 0.0, -1.0)))
}

#[test]
fn fresh_records_have_no_hit() {
    let records: PackedHitRecords<Real, String, 4> = PackedHitRecords::new(FAR, v(0.0, 0.0, 0.0));
    for i in 0..4 {
        assert!(records.at(i).is_none());
    }
    assert_eq!(records.hits().to_array(), [OFF; 4]);
    assert_eq!(records.front_face().to_array(), [OFF; 4]);
    assert_eq!(records.t().to_array(), [FAR; 4]);
    assert_eq!(records.normals().at(0), v(0.0, 0.0, 0.0));
    assert_eq!(records.locations().at(3), v(0.0, 0.0, 0.0));
}

#[test]
fn update_takes_valid_lanes_only() {
    let steel = String::from("steel");
    let mut records: PackedHitRecords<Real, String, 4> = PackedHitRecords::new(FAR, v(0.0, 0.0, 0.0));
    records.update(
        &rays(),
        &PackedVec3::splat(&v(0.0, 0.0, 2.0)),
        &reals([1.0, 2.0, 3.0, 4.0]),
        &Packed::from_array([ON, OFF, ON, OFF]),
        &steel,
    );
    assert_eq!(records.hits().to_array(), [ON, OFF, ON, OFF]);
    assert_eq!(records.t().to_array(), [Real(1.0), FAR, Real(3.0), FAR]);
    assert_eq!(records.normals().at(0), v(0.0, 0.0, 2.0));
    assert_eq!(records.normals().at(1), v(0.0, 0.0, 0.0));
    assert_eq!(records.at(0).unwrap().material(), "steel");
    assert!(records.at(1).is_none());
}

#[test]
fn the_nearer_hit_is_kept() {
    let steel = String::from("steel");
    let glass = String::from("glass");
    let mut records: PackedHitRecords<Real, String, 2> = PackedHitRecords::new(FAR, v(0.0, 0.0, 0.0));
    let every = Packed::from_array([ON, ON]);
    records.update(&rays(), &PackedVec3::splat(&v(1.0, 0.0, 0.0)), &reals([5.0, 2.0]), &every, &steel);
    records.update(&rays(), &PackedVec3::splat(&v(0.0, 1.0, 0.0)), &reals([3.0, 4.0]), &every, &glass);
    assert_eq!(records.t().to_array(), [Real(3.0), Real(2.0)]);
    assert_eq!(records.at(0).unwrap().material(), "glass");
    assert_eq!(records.at(1).unwrap().material(), "steel");
    assert_eq!(records.normals().at(0), v(0.0, 1.0, 0.0));
    assert_eq!(records.normals().at(1), v(1.0, 0.0, 0.0));
}

#[test]
fn of_two_hits_at_the_same_parameter_the_later_is_kept() {
    let first = String::from("first");
    let second = String::from("second");
    let mut records: PackedHitRecords<Real, String, 1> = PackedHitRecords::new(FAR, v(0.0, 0.0, 0.0));
    let every = Packed::from_array([ON]);
    records.update(&rays(), &PackedVec3::splat(&v(1.0, 0.0, 0.0)), &reals([2.5]), &every, &first);
    records.update(&rays(), &PackedVec3::splat(&v(0.0, 1.0, 0.0)), &reals([2.5]), &every, &second);
    let hit = records.at(0).unwrap();
    assert_eq!(hit.material(), "second");
    assert_eq!(hit.t(), Real(2.5));
    assert_eq!(records.normals().at(0), v(0.0, 1.0, 0.0));
}

#[test]
fn a_hit_that_does_not_compare_is_not_taken() {
    let steel = String::from("steel");
    let mut records: PackedHitRecords<Real, String, 2> = PackedHitRecords::new(FAR, v(0.0, 0.0, 0.0));
    records.update(
        &rays(),
        &PackedVec3::splat(&v(1.0, 0.0, 0.0)),
        &reals([f64::NAN, 1.0]),
        &Packed::from_array([ON, ON]),
        &steel,
    );
    assert!(records.at(0).is_none());
    assert!(records.at(1).is_some());
}

#[test]
fn the_same_update_into_two_fresh_batches_gives_the_same_records() {
    let steel = String::from("steel");
    let mut one: PackedHitRecords<Real, String, 4> = PackedHitRecords::new(FAR, v(0.0, 0.0, 0.0));
    let mut two: PackedHitRecords<Real, String, 4> = PackedHitRecords::new(FAR, v(0.0, 0.0, 0.0));
    let normals = PackedVec3::from_vec3s(&[v(1.0, 0.0, 0.0), v(0.0, 1.0, 0.0), v(0.0, 0.0, 1.0), v(1.0, 1.0, 1.0)]);
    let t = reals([0.5, 1.5, 2.5, 3.5]);
    let valid = Packed::from_array([ON, ON, OFF, ON]);
    one.update(&rays(), &normals, &t, &valid, &steel);
    two.update(&rays(), &normals, &t, &valid, &steel);
    assert_eq!(one.hits().to_array(), two.hits().to_array());
    assert_eq!(one.t().to_array(), two.t().to_array());
    for i in 0..4 {
        assert_eq!(one.normals().at(i), two.normals().at(i));
        assert_eq!(one.at(i).is_some(), two.at(i).is_some());
    }
}

#[test]
fn finalize_turns_normals_against_the_rays() {
    let steel = String::from("steel");
    let mut records: PackedHitRecords<Real, String, 2> = PackedHitRecords::new(FAR, v(0.0, 0.0, 0.0));
    records.update(
        &rays(),
        &PackedVec3::from_vec3s(&[v(0.0, 0.0, 2.0), v(0.0, 0.0, -4.0)]),
        &reals([1.0, 3.0]),
        &Packed::from_array([ON, ON]),
        &steel,
    );
    records.finalize(&rays(), ZERO, &sqrt);
    let front = records.at(0).unwrap();
    assert!(front.front_face());
    assert_eq!(front.normal(), v(0.0, 0.0, 1.0));
    assert_eq!(front.location(), v(0.0, 0.0, -1.0));
    assert_eq!(front.t(), Real(1.0));
    let back = records.at(1).unwrap();
    assert!(!back.front_face());
    assert_eq!(back.normal(), v(0.0, 0.0, 1.0));
    assert_eq!(back.location(), v(0.0, 0.0, -3.0));
    assert_eq!(records.front_face().to_array(), [ON, OFF]);
    assert_eq!(records.locations().at(1), v(0.0, 0.0, -3.0));
    assert_eq!(records.normals().at(1), v(0.0, 0.0, 1.0));
    assert_eq!(records.t().to_array(), [Real(1.0), Real(3.0)]);
}

#[test]
fn finalize_brings_the_normals_to_unit_length() {
    let steel = String::from("steel");
    let mut records: PackedHitRecords<Real, String, 2> = PackedHitRecords::new(FAR, v(0.0, 0.0, 0.0));
    records.update(
        &rays(),
        &PackedVec3::from_vec3s(&[v(3.0, 0.0, 4.0), v(1.0, 2.0, -2.0)]),
        &reals([1.0, 3.0]),
        &Packed::from_array([ON, ON]),
        &steel,
    );
    records.finalize(&rays(), ZERO, &sqrt);
    assert_eq!(records.at(0).unwrap().normal(), v(0.6, 0.0, 0.8));
    assert_eq!(records.at(1).unwrap().normal(), v(-1.0 / 3.0, -2.0 / 3.0, 2.0 / 3.0));
    for i in 0..2 {
        let normal = records.normals().at(i);
        assert!((normal.length(&sqrt).0 - 1.0).abs() < 1e-9);
    }
}

#[test]
fn hit_record_keeps_the_normal_that_faces_the_ray() {
    let glass = String::from("glass");
    let down = Ray::new(v(0.0, 5.0, 0.0), v(0.0, -1.0, 0.0));
    let front = HitRecord::new(&down, v(1.0, 2.0, 3.0), v(0.0, 1.0, 0.0), Real(4.0), &glass, ZERO);
    assert_eq!(front.normal(), v(0.0, 1.0, 0.0));
    assert!(front.front_face());
    let up = Ray::new(v(0.0, -5.0, 0.0), v(0.0, 1.0, 0.0));
    let back = HitRecord::new(&up, v(1.0, 2.0, 3.0), v(0.0, 1.0, 0.0), Real(4.0), &glass, ZERO);
    assert_eq!(back.normal(), v(0.0, -1.0, 0.0));
    assert!(!back.front_face());
    assert_eq!(back.location(), v(1.0, 2.0, 3.0));
    assert_eq!(back.t(), Real(4.0));
    assert_eq!(back.material(), "glass");
    let along = Ray::new(v(0.0, 0.0, 0.0), v(1.0, 0.0, 0.0));
    let grazing = HitRecord::new(&along, v(1.0, 2.0, 3.0), v(0.0, 1.0, 0.0), Real(4.0), &glass, ZERO);
    assert!(!grazing.front_face());
    assert_eq!(grazing.normal(), v(0.0, -1.0, 0.0));
}

#[test]
fn nearest_takes_the_first_of_the_smallest() {
    let a = String::from("a");
    let b = String::from("b");
    let c = String::from("c");
    let at = |t: f64, m| {
        Some(HitRecord { location: v(t, 0.0, 0.0), normal: v(0.0, 1.0, 0.0), t: Real(t), front_face: true, material: m })
    };
    let found = vec![at(3.0, &a), None, at(1.0, &b), at(1.0, &c), at(2.0, &a)];
    let best = nearest(&found).unwrap();
    assert_eq!(best.t(), Real(1.0));
    assert_eq!(best.material(), "b");
    let nothing: Vec<Option<HitRecord<Real, String>>> = vec![None, None];
    assert!(nearest(&nothing).is_none());
    let empty: Vec<Option<HitRecord<Real, String>>> = Vec::new();
    assert!(nearest(&empty).is_none());
}

#[test]
fn hit_result_kinds() {
    let white = Color::new(Real(1.0), Real(1.0), Real(1.0));
    let absorbed = HitResult::new_absorbed(white);
    assert_eq!(absorbed.attenuation(), white);
    assert!(absorbed.scattered_ray().is_none());
    let on = Ray::new(v(0.0, 0.0, 0.0), v(1.0, 0.0, 0.0));
    let scattered = HitResult::new_scattered(white, on);
    assert_eq!(scattered.scattered_ray(), Some(&on));
    assert_eq!(scattered.attenuation(), white);
}

#[test]
fn sphere_keeps_its_parts() {
    let sphere = Sphere::new(v(0.0, 0.0, -1.0), Real(0.5), String::from("steel"));
    assert_eq!(sphere.center(), v(0.0, 0.0, -1.0));
    assert_eq!(sphere.radius(), Real(0.5));
    assert_eq!(sphere.material(), "steel");
    let object = Object::Sphere(sphere);
    match &object {
        Object::Sphere(s) => assert_eq!(s.radius(), Real(0.5)),
    }
}

#[test]
fn choose_root_prefers_the_near_crossing() {
    let range = 0.001..f64::INFINITY;
    assert_eq!(Sphere::<f64, ()>::choose_root(0.5, 1.5, &range), Some(0.5));
    assert_eq!(Sphere::<f64, ()>::choose_root(-0.5, 1.5, &range), Some(1.5));
    assert_eq!(Sphere::<f64, ()>::choose_root(0.0, 1.5, &range), Some(1.5));
    assert_eq!(Sphere::<f64, ()>::choose_root(-2.0, -1.0, &range), None);
    assert_eq!(Sphere::<f64, ()>::choose_root(f64::NAN, f64::NAN, &range), None);
    assert_eq!(Sphere::<f64, ()>::choose_root(0.001, 3.0, &range), Some(0.001));
    assert_eq!(Sphere::<f64, ()>::choose_root(2.0, 3.0, &(0.001..2.0)), None);
}

#[test]
fn sphere_hit_by_a_ray_at_a_known_parameter() {
    // A ball of radius 0.5 around (0, 0, -1.0), met head on from the
    // origin: the ray crosses it at 0.5 and again at 1.5.
    let sphere = Sphere::new(v(0.0, 0.0, -1.0), Real(0.5), String::from("steel"));
    let ray = head_on();
    let hit = sphere.hit(&ray, &t_range(), ZERO, &sqrt).unwrap();
    assert!((hit.t().0 - 0.5).abs() < 1e-12);
    assert_eq!(hit.location(), ray.at(hit.t()));
    assert_eq!(hit.location(), v(0.0, 0.0, -0.5));
    assert_eq!(hit.normal(), v(0.0, 0.0, 1.0));
    assert!(hit.front_face());
    assert_eq!(hit.material(), "steel");
    // From inside the ball only the far crossing lies ahead.
    let inside = Ray::new(v(0.0, 0.0, -1.0), v(0.0, 0.0, -1.0));
    let out = sphere.hit(&inside, &t_range(), ZERO, &sqrt).unwrap();
    assert_eq!(out.t(), Real(0.5));
    assert_eq!(out.location(), v(0.0, 0.0, -1.5));
    assert!(!out.front_face());
    assert_eq!(out.normal(), v(0.0, 0.0, 1.0));
    // A range that ends before the ball.
    assert!(sphere.hit(&ray, &(Real(0.001)..Real(0.4)), ZERO, &sqrt).is_none());
    // A range that holds the far crossing only.
    let far = sphere.hit(&ray, &(Real(1.0)..Real(2.0)), ZERO, &sqrt).unwrap();
    assert_eq!(far.t(), Real(1.5));
    // A ray that passes the ball.
    let past = Ray::new(v(0.0, 0.0, 0.0), v(0.0, 1.0, 0.0));
    assert!(sphere.hit(&past, &t_range(), ZERO, &sqrt).is_none());
    // A ray that starts behind the ball and leads away from it.
    let away = Ray::new(v(0.0, 0.0, 0.0), v(0.0, 0.0, 1.0));
    assert!(sphere.hit(&away, &t_range(), ZERO, &sqrt).is_none());
}

#[test]
fn sphere_hit_at_an_angle() {
    // The ray from (0, 0, 0) along (3, 0, 4) meets the unit ball around
    // (3, 0, 4) where the ball meets the line from the origin: at the
    // parameter 1 - 1/5.
    let sphere = Sphere::new(v(3.0, 0.0, 4.0), Real(1.0), 7u8);
    let ray = Ray::new(v(0.0, 0.0, 0.0), v(3.0, 0.0, 4.0));
    let hit = sphere.hit(&ray, &t_range(), ZERO, &sqrt).unwrap();
    assert!((hit.t().0 - 0.8).abs() < 1e-12);
    assert_eq!(hit.location(), ray.at(hit.t()));
    assert!((hit.normal().x.0 + 0.6).abs() < 1e-12);
    assert!((hit.normal().z.0 + 0.8).abs() < 1e-12);
    assert!((hit.normal().length(&sqrt).0 - 1.0).abs() < 1e-9);
    assert_eq!(*hit.material(), 7);
}

#[test]
fn sphere_report_lane_by_lane() {
    let sphere = Sphere::new(v(0.0, 0.0, -1.0), Real(0.5), String::from("steel"));
    let past = Ray::new(v(0.0, 0.0, 0.0), v(0.0, 1.0, 0.0));
    let inside = Ray::new(v(0.0, 0.0, -1.0), v(0.0, 0.0, -1.0));
    let mut batch = PackedRays::<Real, 4>::from_iter(&[head_on(), past, inside, head_on()], head_on());
    batch.disable(3);
    let hits = sphere.report(&batch, &t_range(), ZERO, &sqrt).unwrap();
    assert_eq!(hits.valid.to_array(), [ON, OFF, ON, OFF]);
    assert_eq!(hits.t.at(0), Real(0.5));
    assert_eq!(hits.t.at(2), Real(0.5));
    assert_eq!(hits.outward_normals.at(0), v(0.0, 0.0, 0.5));
    assert_eq!(hits.outward_normals.at(2), v(0.0, 0.0, -0.5));
    assert_eq!(hits.material, "steel");
    for (i, ray) in [head_on(), past, inside].iter().enumerate() {
        let alone = sphere.hit(ray, &t_range(), ZERO, &sqrt);
        assert_eq!(hits.valid.at(i) == ON, alone.is_some());
        if let Some(hit) = alone {
            assert_eq!(hits.t.at(i), hit.t());
        }
    }
    // Nothing is reported where no enabled lane can meet the ball.
    let mut none = PackedRays::<Real, 4>::from_iter(&[past, head_on()], past);
    none.disable(1);
    assert!(sphere.report(&none, &t_range(), ZERO, &sqrt).is_none());
    // A lane whose line meets the ball behind the ray is reported, not valid.
    let away = Ray::new(v(0.0, 0.0, 0.0), v(0.0, 0.0, 1.0));
    let behind = PackedRays::<Real, 2>::from_iter(&[away, away], away);
    let told = sphere.report(&behind, &t_range(), ZERO, &sqrt).unwrap();
    assert_eq!(told.valid.to_array(), [OFF, OFF]);
}

#[test]
fn hit_packed_twice_into_fresh_records_gives_the_same() {
    let object = Object::Sphere(Sphere::new(v(0.2, 0.1, -1.0), Real(0.5), String::from("steel")));
    let past = Ray::new(v(0.0, 0.0, 0.0), v(0.0, 1.0, 0.0));
    let slant = Ray::new(v(0.0, 0.0, 0.0), v(0.1, 0.05, -1.0));
    let batch = PackedRays::<Real, 4>::from_iter(&[head_on(), past, slant], head_on());
    let mut one: PackedHitRecords<Real, String, 4> = PackedHitRecords::new(FAR, v(0.0, 0.0, 0.0));
    let mut two: PackedHitRecords<Real, String, 4> = PackedHitRecords::new(FAR, v(0.0, 0.0, 0.0));
    object.hit_packed(&batch, &t_range(), &mut one, ZERO, &sqrt);
    object.hit_packed(&batch, &t_range(), &mut two, ZERO, &sqrt);
    assert_eq!(one.hits().to_array(), [ON, OFF, ON, OFF]);
    assert_eq!(one.hits().to_array(), two.hits().to_array());
    assert_eq!(one.t().to_array(), two.t().to_array());
    for i in 0..4 {
        assert_eq!(one.normals().at(i), two.normals().at(i));
    }
    // Once more into records that hold the hits already: a hit at the very
    // same parameter replaces the one kept, and nothing changes.
    object.hit_packed(&batch, &t_range(), &mut one, ZERO, &sqrt);
    assert_eq!(one.t().to_array(), two.t().to_array());
    assert_eq!(one.hits().to_array(), two.hits().to_array());
}

#[test]
fn object_hit_is_that_of_its_ball() {
    let sphere = Sphere::new(v(0.0, 0.0, -1.0), Real(0.5), 3u8);
    let object = Object::Sphere(sphere.clone());
    let through = object.hit(&head_on(), &t_range(), ZERO, &sqrt).unwrap();
    let direct = sphere.hit(&head_on(), &t_range(), ZERO, &sqrt).unwrap();
    assert_eq!(through.t(), direct.t());
    assert_eq!(through.location(), direct.location());
    assert_eq!(through.normal(), direct.normal());
    let batch = PackedRays::<Real, 2>::from_iter(&[head_on()], head_on());
    let told = object.report(&batch, &t_range(), ZERO, &sqrt).unwrap();
    assert_eq!(told.valid.to_array(), [ON, OFF]);
    assert_eq!(told.t.at(0), direct.t());
}

#[test]
fn choose_roots_lane_by_lane() {
    let near = reals([0.5, -0.5, -2.0, 0.5, 0.5]);
    let far = reals([1.5, 1.5, -1.0, 1.5, 1.5]);
    let discriminant = reals([1.0, 1.0, 1.0, -1.0, 0.0]);
    let enabled = Packed::from_array([ON, ON, ON, ON, OFF]);
    let (roots, valid) = Sphere::<Real, ()>::choose_roots(
        &near,
        &far,
        &(Real(0.001)..FAR),
        &discriminant,
        Real(0.0),
        &enabled,
    );
    assert_eq!(valid.to_array(), [ON, ON, OFF, OFF, OFF]);
    assert_eq!(roots.at(0), Real(0.5));
    assert_eq!(roots.at(1), Real(1.5));
}

#[test]
fn choose_roots_agrees_with_choose_root() {
    let near = [0.5, -0.5, -2.0, 0.0005, 7.0];
    let far = [1.5, 1.5, -1.0, 0.002, 9.0];
    let range = Real(0.001)..Real(8.0);
    let (roots, valid) = Sphere::<Real, ()>::choose_roots(
        &reals(near),
        &reals(far),
        &range,
        &reals([1.0; 5]),
        Real(0.0),
        &Packed::broadcast_bool(true),
    );
    for i in 0..5 {
        let alone = Sphere::<Real, ()>::choose_root(Real(near[i]), Real(far[i]), &range);
        assert_eq!(valid.at(i) == ON, alone.is_some());
        if let Some(root) = alone {
            assert_eq!(roots.at(i), root);
        }
    }
}

#[test]
fn a_ray_without_direction_hits_nothing() {
    // With a direction of length zero the crossings are not numbers, or
    // lie at infinity; neither lies in the range of a hit.
    let sphere = Sphere::new(v(0.0, 0.0, -1.0), Real(0.5), String::from("steel"));
    let still = Ray::new(v(0.0, 0.0, 0.0), v(0.0, 0.0, 0.0));
    assert!(sphere.hit(&still, &t_range(), ZERO, &sqrt).is_none());
    let within = Ray::new(v(0.0, 0.0, -1.0), v(0.0, 0.0, 0.0));
    assert!(sphere.hit(&within, &t_range(), ZERO, &sqrt).is_none());
    let batch = PackedRays::<Real, 2>::from_iter(&[still, within], still);
    match sphere.report(&batch, &t_range(), ZERO, &sqrt) {
        None => {}
        Some(hits) => assert_eq!(hits.valid.to_array(), [OFF, OFF]),
    }
    let range = t_range();
    assert_eq!(Sphere::<Real, ()>::choose_root(Real(f64::NAN), Real(f64::NAN), &range), None);
    let (_, valid) = Sphere::<Real, ()>::choose_roots(
        &reals([f64::NAN, f64::NEG_INFINITY, f64::INFINITY]),
        &reals([f64::NAN, f64::INFINITY, f64::INFINITY]),
        &range,
        &reals([0.0, 1.0, 1.0]),
        Real(0.0),
        &Packed::broadcast_bool(true),
    );
    assert_eq!(valid.to_array(), [OFF, OFF, OFF]);
}
