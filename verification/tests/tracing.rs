use raytracer::color::{Color, PackedColor};
use raytracer::geometry::Vec3;
use raytracer::materials::{Lambertian, Material, Metal};
use raytracer::objects::{HitRecord, HitResult, Object, Sphere};
use raytracer::packed::Scaler;
use raytracer::ray::{PackedRays, Ray};
use raytracer::ray_tracing::{end_colors, start_batches, Scene};
use std::cell::Cell;
use std::ops::{Add, Div, Mul, Neg, Sub};

#[derive(Clone, Copy, Debug, PartialEq, PartialOrd)]
struct Real(f64);

impl Scaler for Real {
    type MaskType = u64;
}

impl Add for Real {
    type Output = Real;

    fn add(self, rhs: Real) -> Real {
        Real(self.0 + rhs.0)
    }
}

impl Sub for Real {
    type Output = Real;

    fn sub(self, rhs: Real) -> Real {
        Real(self.0 - rhs.0)
    }
}

impl Mul for Real {
    type Output = Real;

    fn mul(self, rhs: Real) -> Real {
        Real(self.0 * rhs.0)
    }
}

impl Div for Real {
    type Output = Real;

    fn div(self, rhs: Real) -> Real {
        Real(self.0 / rhs.0)
    }
}

impl Neg for Real {
    type Output = Real;

    fn neg(self) -> Real {
        Real(-self.0)
    }
}

type Surface = Object<Real, Material<Real>>;

const N: usize = 4;

const ZERO: Real = Real(0.0);

fn v(x: f64, y: f64, z: f64) -> Vec3<Real> {
    Vec3::new(Real(x), Real(y), Real(z))
}

fn c(red: f64, green: f64, blue: f64) -> Color<Real> {
    Color::new(Real(red), Real(green), Real(blue))
}

fn white() -> Color<Real> {
    Color::white(Real(1.0))
}

fn black() -> Color<Real> {
    c(0.0, 0.0, 0.0)
}

fn sqrt(x: Real) -> Real {
    Real(x.0.sqrt())
}

fn t_range() -> std::ops::Range<Real> {
    Real(0.001)..Real(f64::INFINITY)
}

fn mirror(albedo: Color<Real>) -> Material<Real> {
    Material::Metal(Metal::new(albedo, Real(0.0), Real(1.0)))
}

/// In these tests a matte surface keeps every ray that hits it.
fn matte(albedo: Color<Real>) -> Material<Real> {
    Material::Lambertian(Lambertian::new(albedo))
}

fn ball(center: Vec3<Real>, radius: f64, material: Material<Real>) -> Surface {
    Object::Sphere(Sphere::new(center, Real(radius), material))
}

fn sideways() -> Vec3<Real> {
    v(1.0, 0.0, 0.0)
}

fn react(hit: &HitRecord<Real, Material<Real>>, ray: &Ray<Real>) -> HitResult<Real> {
    match hit.material() {
        Material::Metal(metal) => metal.get_hit_result(ray, hit, &sideways),
        Material::Lambertian(matte) => HitResult::new_absorbed(matte.albedo),
        Material::Dielectric(_) => HitResult::new_scattered(white(), Ray::new(hit.location(), ray.direction)),
    }
}

fn bounce<const L: usize>(scene: &Scene<Surface>, rays: &PackedRays<Real, L>) -> [Option<HitResult<Real>>; L] {
    let records = scene.hit_packed(rays, &t_range(), Real(f64::INFINITY), v(0.0, 0.0, 0.0), ZERO, &sqrt);
    records.scatter(rays, &react)
}

/// What one ray finds, computed as a batch of one lane computes it, so
/// that a ray traced alone and a ray traced in a batch meet the very same
/// arithmetic.
fn find(scene: &Scene<Surface>, ray: &Ray<Real>) -> Option<HitResult<Real>> {
    let alone = PackedRays::<Real, 1>::from_iter(&[*ray], *ray);
    bounce(scene, &alone)[0]
}

fn attenuate(a: Color<Real>, b: Color<Real>) -> Color<Real> {
    a.mul(b)
}

fn sky(ray: &Ray<Real>) -> Color<Real> {
    Color::sky(&ray.direction, c(0.5, 0.7, 1.0), Real(1.0), Real(0.5))
}

fn close(a: Color<Real>, b: Color<Real>) -> bool {
    (a.red.0 - b.red.0).abs() < 1e-12
        && (a.green.0 - b.green.0).abs() < 1e-12
        && (a.blue.0 - b.blue.0).abs() < 1e-12
}

fn mirror_ball_scene() -> Scene<Surface> {
    let mut scene = Scene::new();
    scene.add(ball(v(0.0, 0.0, -1.0), 0.5, mirror(c(0.8, 0.6, 0.2))));
    scene
}

fn head_on() -> Ray<Real> {
    Ray::new(v(0.0, 0.0, 0.0), v(0.0, 0.0, -1.0))
}

/// A scene in which rays are mirrored, kept, or escape.
fn mixed_scene() -> Scene<Surface> {
    Scene::from_list(vec![
        ball(v(0.0, 0.0, -1.0), 0.5, mirror(c(0.8, 0.6, 0.2))),
        ball(v(1.2, 0.0, -1.0), 0.5, matte(c(0.3, 0.3, 0.9))),
        ball(v(-1.2, 0.0, -1.0), 0.5, mirror(c(0.9, 0.9, 0.9))),
        ball(v(0.0, -100.5, -1.0), 100.0, mirror(c(0.5, 0.5, 0.5))),
        ball(v(0.0, 1.5, -1.0), 0.5, matte(c(0.1, 0.2, 0.3))),
    ])
}

fn fan_of_rays(count: usize) -> Vec<Ray<Real>> {
    (0..count)
        .map(|k| {
            let s = k as f64 / count as f64;
            let direction = v(-1.5 + 3.0 * s, 0.9 * (7.0 * s).sin(), -1.0).unit(&sqrt);
            Ray::new(v(0.0, 0.0, 0.5), direction)
        })
        .collect()
}

fn bits(color: Color<Real>) -> [u64; 3] {
    [color.red.0.to_bits(), color.green.0.to_bits(), color.blue.0.to_bits()]
}

fn sorted_bits(colors: &[PackedColor<Real, N>]) -> Vec<[u64; 3]> {
    let mut out = Vec::new();
    for batch in colors {
        for i in 0..N {
            out.push(bits(batch.at(i)));
        }
    }
    out.sort();
    out
}

#[test]
fn scene_keeps_its_surfaces_in_order() {
    let mut scene: Scene<u32> = Scene::new();
    assert!(scene.objects().is_empty());
    scene.add(7);
    scene.add(9);
    assert_eq!(scene.objects(), &vec![7, 9]);
    assert_eq!(Scene::from_list(vec![1, 2, 3]).objects(), &vec![1, 2, 3]);
}

#[test]
fn trace_without_a_bounce_is_black_and_asks_nothing() {
    let asked = Cell::new(0);
    let counting_find = |scene: &Scene<Surface>, ray: &Ray<Real>| {
        asked.set(asked.get() + 1);
        find(scene, ray)
    };
    let counting_sky = |ray: &Ray<Real>| {
        asked.set(asked.get() + 1);
        sky(ray)
    };
    let scene = mirror_ball_scene();
    let color = scene.trace(&head_on(), 0, black(), &counting_find, &attenuate, &counting_sky);
    assert_eq!(color, black());
    assert_eq!(asked.get(), 0);
}

#[test]
fn a_mirror_ball_met_head_on_shows_the_sky_behind_the_eye() {
    let scene = mirror_ball_scene();
    let expected = c(0.75 * 0.8, 0.85 * 0.6, 1.0 * 0.2);
    for depth in [2, 3, 50] {
        let color = scene.trace(&head_on(), depth, black(), &find, &attenuate, &sky);
        assert!(close(color, expected), "{:?}", color);
    }
    let spent = scene.trace(&head_on(), 1, black(), &find, &attenuate, &sky);
    assert!(close(spent, black()));
}

#[test]
fn a_ray_that_misses_everything_takes_the_color_of_the_sky() {
    let scene = mirror_ball_scene();
    let up = Ray::new(v(0.0, 0.0, 0.0), v(0.0, 1.0, 0.0));
    let color = scene.trace(&up, 5, black(), &find, &attenuate, &sky);
    assert!(close(color, c(0.5, 0.7, 1.0)));
    let down = Ray::new(v(0.0, 0.0, 0.0), v(0.0, -1.0, 0.0));
    assert!(close(scene.trace(&down, 5, black(), &find, &attenuate, &sky), white()));
}

#[test]
fn a_surface_that_keeps_the_ray_gives_its_own_color() {
    let scene = Scene::from_list(vec![ball(v(0.0, 0.0, -1.0), 0.5, matte(c(0.3, 0.3, 0.9)))]);
    let color = scene.trace(&head_on(), 5, black(), &find, &attenuate, &sky);
    assert!(close(color, c(0.3, 0.3, 0.9)));
    let colors = scene.trace_rays(&vec![head_on()], 5, white(), black(), &find, &attenuate, &sky);
    assert!(close(colors[0], c(0.3, 0.3, 0.9)));
}

#[test]
fn trace_rays_follows_each_ray() {
    let scene = mirror_ball_scene();
    let up = Ray::new(v(0.0, 0.0, 0.0), v(0.0, 1.0, 0.0));
    let rays = vec![head_on(), up, head_on()];
    let colors = scene.trace_rays(&rays, 2, white(), black(), &find, &attenuate, &sky);
    assert_eq!(colors.len(), 3);
    assert!(close(colors[0], c(0.75 * 0.8, 0.85 * 0.6, 1.0 * 0.2)));
    assert!(close(colors[1], c(0.5, 0.7, 1.0)));
    assert_eq!(bits(colors[0]), bits(colors[2]));
}

#[test]
fn trace_rays_without_a_bounce_is_black() {
    let scene = mirror_ball_scene();
    let colors = scene.trace_rays(&vec![head_on(); 3], 0, white(), black(), &find, &attenuate, &sky);
    assert_eq!(colors, vec![black(); 3]);
    let none = scene.trace_rays(&Vec::new(), 4, white(), black(), &find, &attenuate, &sky);
    assert!(none.is_empty());
}

#[test]
fn a_ray_caught_between_two_mirrors_runs_out_of_bounces() {
    let scene = Scene::from_list(vec![
        ball(v(0.0, 0.0, -2.0), 1.0, mirror(c(0.9, 0.9, 0.9))),
        ball(v(0.0, 0.0, 2.0), 1.0, mirror(c(0.9, 0.9, 0.9))),
    ]);
    let colors = scene.trace_rays(&vec![head_on()], 20, white(), black(), &find, &attenuate, &sky);
    assert_eq!(colors[0], black());
    let batch = PackedRays::<Real, N>::from_iter(&[head_on()], head_on());
    let lanes = scene.trace_vectorized(batch, 20, white(), black(), &bounce, &attenuate, &sky);
    assert_eq!(lanes.at(0), black());
}

#[test]
fn trace_vectorized_traces_every_enabled_lane() {
    let scene = mirror_ball_scene();
    let up = Ray::new(v(0.0, 0.0, 0.0), v(0.0, 1.0, 0.0));
    let batch = PackedRays::<Real, N>::from_iter(&[head_on(), up, head_on()], head_on());
    let colors = scene.trace_vectorized(batch, 8, white(), black(), &bounce, &attenuate, &sky);
    assert!(close(colors.at(0), c(0.75 * 0.8, 0.85 * 0.6, 1.0 * 0.2)));
    assert!(close(colors.at(1), c(0.5, 0.7, 1.0)));
    assert!(close(colors.at(2), c(0.75 * 0.8, 0.85 * 0.6, 1.0 * 0.2)));
    assert_eq!(colors.at(3), black());
}

#[test]
fn trace_vectorized_without_a_bounce_is_black() {
    let scene = mirror_ball_scene();
    let batch = PackedRays::<Real, N>::from_iter(&[head_on(), head_on()], head_on());
    let colors = scene.trace_vectorized(batch, 0, white(), black(), &bounce, &attenuate, &sky);
    for i in 0..N {
        assert_eq!(colors.at(i), black());
    }
}

#[test]
fn trace_vectorized_stops_asking_once_every_lane_rests() {
    let asked = Cell::new(0);
    let counting = |scene: &Scene<Surface>, rays: &PackedRays<Real, N>| {
        asked.set(asked.get() + 1);
        bounce(scene, rays)
    };
    let scene = mirror_ball_scene();
    let batch = PackedRays::<Real, N>::from_iter(&[head_on(); 4], head_on());
    scene.trace_vectorized(batch, 50, white(), black(), &counting, &attenuate, &sky);
    assert_eq!(asked.get(), 2);
}

#[test]
fn the_batch_tracers_agree_with_tracing_each_ray_alone() {
    let scene = mixed_scene();
    let rays = fan_of_rays(22);
    for depth in [0, 1, 2, 3, 8] {
        let alone = scene.trace_rays(&rays, depth, white(), black(), &find, &attenuate, &sky);
        let batches = PackedRays::<Real, N>::pack(&rays, head_on());
        assert_eq!(batches.len(), 6);
        let single: Vec<PackedColor<Real, N>> = batches
            .iter()
            .map(|b| scene.trace_vectorized(*b, depth, white(), black(), &bounce, &attenuate, &sky))
            .collect();
        for k in 0..rays.len() {
            assert_eq!(bits(single[k / N].at(k % N)), bits(alone[k]));
        }
        assert_eq!(single[5].at(2), black());
        assert_eq!(single[5].at(3), black());
        let double = scene.trace_vectorized2(&batches, depth, white(), black(), &bounce, &attenuate, &sky);
        let in_place = scene.trace_vectorized3(&batches, depth, white(), black(), &bounce, &attenuate, &sky);
        assert_eq!(double.len(), 6);
        assert_eq!(in_place.len(), 6);
        assert_eq!(sorted_bits(&single), sorted_bits(&double));
        assert_eq!(sorted_bits(&single), sorted_bits(&in_place));
    }
}

#[test]
fn the_mixed_scene_shows_every_kind_of_end() {
    let scene = mixed_scene();
    let rays = fan_of_rays(22);
    let colors = scene.trace_rays(&rays, 8, white(), black(), &find, &attenuate, &sky);
    let kept = colors.iter().filter(|k| close(**k, c(0.3, 0.3, 0.9))).count();
    let dark = colors.iter().filter(|k| **k == black()).count();
    assert!(kept > 0);
    assert!(dark < colors.len());
    let one_bounce = scene.trace_rays(&rays, 1, white(), black(), &find, &attenuate, &sky);
    assert!(one_bounce.iter().any(|k| *k == black()));
    assert_ne!(
        colors.iter().map(|k| bits(*k)).collect::<Vec<_>>(),
        one_bounce.iter().map(|k| bits(*k)).collect::<Vec<_>>()
    );
}

#[test]
fn the_batch_tracers_without_a_bounce_are_black() {
    let scene = mixed_scene();
    let batches = PackedRays::<Real, N>::pack(&fan_of_rays(6), head_on());
    for colors in [
        scene.trace_vectorized2(&batches, 0, white(), black(), &bounce, &attenuate, &sky),
        scene.trace_vectorized3(&batches, 0, white(), black(), &bounce, &attenuate, &sky),
    ] {
        assert_eq!(colors.len(), 2);
        for batch in &colors {
            for i in 0..N {
                assert_eq!(batch.at(i), black());
            }
        }
    }
}

#[test]
fn the_batch_tracers_ask_only_about_batches_in_use() {
    let scene = mirror_ball_scene();
    let up = Ray::new(v(0.0, 0.0, 0.0), v(0.0, 1.0, 0.0));
    // Eight rays of which two meet the ball: after the first bounce one
    // batch holds every ray that is still under way.
    let rays = vec![up, head_on(), up, up, up, up, head_on(), up];
    let batches = PackedRays::<Real, N>::pack(&rays, head_on());
    for strategy in 2..=3 {
        let asked = Cell::new(0);
        let counting = |scene: &Scene<Surface>, rays: &PackedRays<Real, N>| {
            asked.set(asked.get() + 1);
            bounce(scene, rays)
        };
        let colors = if strategy == 2 {
            scene.trace_vectorized2(&batches, 50, white(), black(), &counting, &attenuate, &sky)
        } else {
            scene.trace_vectorized3(&batches, 50, white(), black(), &counting, &attenuate, &sky)
        };
        assert_eq!(asked.get(), 3);
        let seen = sorted_bits(&colors);
        let mirrored = bits(attenuate(attenuate(white(), c(0.8, 0.6, 0.2)), c(0.75, 0.85, 1.0)));
        assert_eq!(seen.iter().filter(|k| **k == mirrored).count(), 2);
        assert_eq!(seen.iter().filter(|k| **k == bits(c(0.5, 0.7, 1.0))).count(), 6);
    }
}

#[test]
fn bounce_batch_and_bounce_front_step_the_lanes() {
    let scene = mirror_ball_scene();
    let up = Ray::new(v(0.0, 0.0, 0.0), v(0.0, 1.0, 0.0));
    let rays = vec![head_on(), up, up, up, head_on(), up, up, up];
    let packed = PackedRays::<Real, N>::pack(&rays, head_on());
    let mut batches = start_batches(&packed, white(), black());
    scene.bounce_front(&mut batches, 1, &bounce, &attenuate);
    assert!(batches[0].is_active(0));
    assert_eq!(batches[0].lane(0).color, c(0.8, 0.6, 0.2));
    assert!(!batches[0].is_active(1));
    assert_eq!(batches[1].lane(0).color, white());
    let mut second = batches[1];
    scene.bounce_batch(&mut second, &bounce, &attenuate);
    assert_eq!(second.lane(0).color, c(0.8, 0.6, 0.2));
    assert!(!second.is_active(3));
    let colors = end_colors(&batches, black(), &attenuate, &sky);
    assert_eq!(colors[0].at(0), black());
    assert_eq!(colors[0].at(1), c(0.5, 0.7, 1.0));
    assert_eq!(colors[1].at(0), black());
}

#[test]
fn scene_hit_finds_the_nearest_surface() {
    let scene = mixed_scene();
    let hit = scene.hit(&head_on(), t_range(), ZERO, &sqrt).unwrap();
    assert!((hit.t().0 - 0.5).abs() < 1e-12);
    assert!(hit.front_face());
    assert!(close_vec(hit.location(), v(0.0, 0.0, -0.5)));
    assert!(close_vec(hit.normal(), v(0.0, 0.0, 1.0)));
    assert!(matches!(hit.material(), Material::Metal(m) if m.albedo == c(0.8, 0.6, 0.2)));
    let up = Ray::new(v(0.0, 0.7, -1.0), v(0.0, 1.0, 0.0));
    let above = scene.hit(&up, t_range(), ZERO, &sqrt).unwrap();
    assert!(matches!(above.material(), Material::Lambertian(_)));
    assert!((above.t().0 - 0.3).abs() < 1e-12);
    let away = Ray::new(v(0.0, 50.0, 0.0), v(0.0, 1.0, 0.0));
    assert!(scene.hit(&away, t_range(), ZERO, &sqrt).is_none());
    let empty: Scene<Surface> = Scene::new();
    assert!(empty.hit(&head_on(), t_range(), ZERO, &sqrt).is_none());
}

#[test]
fn scene_hit_keeps_the_first_of_two_surfaces_at_the_same_distance() {
    let first = mirror(c(0.1, 0.1, 0.1));
    let second = mirror(c(0.9, 0.9, 0.9));
    let scene = Scene::from_list(vec![ball(v(0.0, 0.0, -1.0), 0.5, first), ball(v(0.0, 0.0, -1.0), 0.5, second)]);
    let hit = scene.hit(&head_on(), t_range(), ZERO, &sqrt).unwrap();
    assert!(matches!(hit.material(), Material::Metal(m) if m.albedo == c(0.1, 0.1, 0.1)));
    let batch = PackedRays::<Real, N>::from_iter(&[head_on()], head_on());
    let records = scene.hit_packed(&batch, &t_range(), Real(f64::INFINITY), v(0.0, 0.0, 0.0), ZERO, &sqrt);
    let lane = records.at(0).unwrap();
    assert!(matches!(lane.material(), Material::Metal(m) if m.albedo == c(0.9, 0.9, 0.9)));
    assert_eq!(lane.t(), hit.t());
}

#[test]
fn scene_hit_packed_keeps_the_nearest_hit_of_each_enabled_lane() {
    let scene = mixed_scene();
    let up = Ray::new(v(0.0, 0.7, -1.0), v(0.0, 1.0, 0.0));
    let away = Ray::new(v(0.0, 50.0, 0.0), v(0.0, 1.0, 0.0));
    let mut rays = PackedRays::<Real, N>::from_iter(&[head_on(), up, away, head_on()], head_on());
    rays.disable(3);
    let records = scene.hit_packed(&rays, &t_range(), Real(f64::INFINITY), v(0.0, 0.0, 0.0), ZERO, &sqrt);
    for (i, ray) in [head_on(), up].iter().enumerate() {
        let alone = scene.hit(ray, t_range(), ZERO, &sqrt).unwrap();
        let lane = records.at(i).unwrap();
        assert_eq!(lane.t(), alone.t());
        assert_eq!(lane.front_face(), alone.front_face());
        assert_eq!(lane.location(), alone.location());
        assert!(close_vec(lane.normal(), alone.normal()));
        let length = lane.normal().length(&sqrt);
        assert!((length.0 - 1.0).abs() < 1e-9);
    }
    assert!(records.at(2).is_none());
    assert!(records.at(3).is_none());
    let found = records.scatter(&rays, &react);
    assert!(found[0].unwrap().scattered_ray().is_some());
    assert!(found[1].unwrap().scattered_ray().is_none());
    assert!(found[2].is_none());
    assert!(found[3].is_none());
}

#[test]
fn a_ray_alone_and_a_ray_in_a_batch_find_the_same() {
    let scene = mixed_scene();
    for ray in fan_of_rays(22) {
        let alone = scene.hit(&ray, t_range(), ZERO, &sqrt);
        let batch = PackedRays::<Real, N>::from_iter(&[ray, ray], ray);
        let records = scene.hit_packed(&batch, &t_range(), Real(f64::INFINITY), v(0.0, 0.0, 0.0), ZERO, &sqrt);
        match alone {
            None => assert!(records.at(0).is_none() && records.at(1).is_none()),
            Some(hit) => {
                let lane = records.at(1).unwrap();
                assert_eq!(lane.t(), hit.t());
                assert_eq!(lane.location(), hit.location());
                assert_eq!(lane.front_face(), hit.front_face());
                assert!(close_vec(lane.normal(), hit.normal()));
            }
        }
        assert!(records.at(2).is_none());
    }
}

fn close_vec(a: Vec3<Real>, b: Vec3<Real>) -> bool {
    (a.x.0 - b.x.0).abs() < 1e-12 && (a.y.0 - b.y.0).abs() < 1e-12 && (a.z.0 - b.z.0).abs() < 1e-12
}

fn no_vector() -> Vec3<Real> {
    panic!("no vector is drawn here")
}

fn half() -> Real {
    Real(0.5)
}

fn up_vector() -> Vec3<Real> {
    v(0.0, 1.0, 0.0)
}

fn find_in(scene: &Scene<Surface>, ray: &Ray<Real>) -> Option<HitResult<Real>> {
    scene.find(ray, t_range(), Real(1.0), ZERO, Real(1e-8), &sqrt, &up_vector, &half)
}

fn bounce_in(scene: &Scene<Surface>, rays: &PackedRays<Real, N>) -> [Option<HitResult<Real>>; N] {
    scene.bounce(rays, &t_range(), Real(f64::INFINITY), Real(1.0), ZERO, Real(1e-8), &sqrt, &up_vector, &half)
}

#[test]
fn find_asks_the_material_of_the_nearest_surface() {
    let scene = mixed_scene();
    let found = find_in(&scene, &head_on()).unwrap();
    assert_eq!(found.attenuation(), c(0.8, 0.6, 0.2));
    assert_eq!(found.scattered_ray(), Some(&Ray::new(v(0.0, 0.0, -0.5), v(0.0, 0.0, 1.0))));
    // The matte ball above sends the ray on along its normal and the
    // vector that chance gave.
    let up = Ray::new(v(0.0, 0.7, -1.0), v(0.0, 1.0, 0.0));
    let matte = find_in(&scene, &up).unwrap();
    assert_eq!(matte.attenuation(), c(0.1, 0.2, 0.3));
    let sent = matte.scattered_ray().unwrap();
    assert!(close_vec(sent.origin(), v(0.0, 1.0, -1.0)));
    assert!(close_vec(sent.direction(), v(0.0, 0.0, 0.0)) || close_vec(sent.direction(), v(0.0, -1.0, 0.0)));
    let away = Ray::new(v(0.0, 50.0, 0.0), v(0.0, 1.0, 0.0));
    assert!(find_in(&scene, &away).is_none());
}

#[test]
fn bounce_answers_for_the_enabled_lanes() {
    let scene = mixed_scene();
    let away = Ray::new(v(0.0, 50.0, 0.0), v(0.0, 1.0, 0.0));
    let mut rays = PackedRays::<Real, N>::from_iter(&[head_on(), away, head_on(), head_on()], head_on());
    rays.disable(2);
    let found = bounce_in(&scene, &rays);
    assert!(found[1].is_none());
    assert!(found[2].is_none());
    for i in [0, 3] {
        let lane = found[i].unwrap();
        assert_eq!(lane.attenuation(), c(0.8, 0.6, 0.2));
        assert_eq!(lane.scattered_ray(), Some(&Ray::new(v(0.0, 0.0, -0.5), v(0.0, 0.0, 1.0))));
    }
    let alone = find_in(&scene, &head_on()).unwrap();
    assert_eq!(found[0].unwrap().scattered_ray(), alone.scattered_ray());
}

#[test]
fn the_tracers_run_on_the_materials_of_the_scene() {
    // A clean mirror, met head on, shows the sky behind the eye: the color
    // of the sky straight behind, times the color of the mirror.
    let scene = mirror_ball_scene();
    let expected = c(0.75 * 0.8, 0.85 * 0.6, 1.0 * 0.2);
    let alone = scene.trace(&head_on(), 2, black(), &find_in, &attenuate, &sky);
    assert!(close(alone, expected), "{:?}", alone);
    let listed = scene.trace_rays(&vec![head_on()], 5, white(), black(), &find_in, &attenuate, &sky);
    assert!(close(listed[0], expected));
    let batch = PackedRays::<Real, N>::from_iter(&[head_on(), head_on()], head_on());
    let lanes = scene.trace_vectorized(batch, 5, white(), black(), &bounce_in, &attenuate, &sky);
    assert!(close(lanes.at(0), expected));
    assert!(close(lanes.at(1), expected));
    assert_eq!(lanes.at(2), black());
    let batches = vec![batch, batch];
    for colors in [
        scene.trace_vectorized2(&batches, 5, white(), black(), &bounce_in, &attenuate, &sky),
        scene.trace_vectorized3(&batches, 5, white(), black(), &bounce_in, &attenuate, &sky),
    ] {
        let lit = colors.iter().flat_map(|b| (0..N).map(|i| b.at(i))).filter(|k| close(*k, expected)).count();
        assert_eq!(lit, 4);
    }
    // A mirror that is not met sends nothing on.
    let miss = Ray::new(v(0.0, 0.0, 0.0), v(0.0, 1.0, 0.0));
    let batch = PackedRays::<Real, N>::from_iter(&[miss], miss);
    let lanes = scene.trace_vectorized(batch, 5, white(), black(), &|s: &Scene<Surface>, r: &PackedRays<Real, N>| {
        s.bounce(r, &t_range(), Real(f64::INFINITY), Real(1.0), ZERO, Real(1e-8), &sqrt, &no_vector, &half)
    }, &attenuate, &sky);
    assert!(close(lanes.at(0), c(0.5, 0.7, 1.0)));
}
