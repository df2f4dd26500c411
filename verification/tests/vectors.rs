use raytracer::camera::Camera;
use raytracer::color::Color;
use raytracer::geometry::{PackedVec3, Vec3};
use raytracer::numbers::{at_most, magnitude};
use raytracer::packed::Packed;

fn v(x: f64, y: f64, z: f64) -> Vec3<f64> {
    Vec3::new(x, y, z)
}

fn sqrt(x: f64) -> f64 {
    x.sqrt()
}

fn close(a: Vec3<f64>, b: Vec3<f64>) -> bool {
    (a.x - b.x).abs() < 1e-12 && (a.y - b.y).abs() < 1e-12 && (a.z - b.z).abs() < 1e-12
}

#[test]
fn magnitude_drops_the_sign() {
    assert_eq!(magnitude(-2.5, 0.0), 2.5);
    assert_eq!(magnitude(2.5, 0.0), 2.5);
    assert_eq!(magnitude(0.0, 0.0), 0.0);
    assert_eq!(magnitude(-7i64, 0), 7);
    assert!(magnitude(f64::NAN, 0.0).is_nan());
}

#[test]
fn at_most_holds_a_value_down() {
    assert_eq!(at_most(0.5, 1.0), 0.5);
    assert_eq!(at_most(1.5, 1.0), 1.0);
    assert_eq!(at_most(1.0, 1.0), 1.0);
    assert_eq!(at_most(f64::NAN, 1.0), 1.0);
    assert_eq!(at_most(-3i32, 2), -3);
}

#[test]
fn length_is_the_root_of_the_squares() {
    assert_eq!(v(3.0, 0.0, 4.0).length(&sqrt), 5.0);
    assert_eq!(v(1.0, 2.0, 2.0).length(&sqrt), 3.0);
    assert_eq!(v(0.0, 0.0, 0.0).length(&sqrt), 0.0);
    // The root is the one that the caller hands in.
    assert_eq!(v(3.0, 0.0, 4.0).length(&|x: f64| x + 1.0), 26.0);
}

#[test]
fn a_unit_vector_has_the_length_one() {
    assert_eq!(v(3.0, 0.0, 4.0).unit(&sqrt), v(0.6, 0.0, 0.8));
    assert_eq!(v(0.0, -2.0, 0.0).unit(&sqrt), v(0.0, -1.0, 0.0));
    let vectors = [
        v(1.0, 2.0, 3.0),
        v(-0.5, 0.25, 8.0),
        v(0.1, 0.2, 0.3),
        v(1e10, -1e-10, 0.0),
        v(1e-7, 1e-7, -1e-7),
        v(123.456, -654.321, 0.001),
    ];
    for vector in vectors {
        let unit = vector.unit(&sqrt);
        assert!((unit.length(&sqrt) - 1.0).abs() < 1e-9);
        // The direction stays: the cross product with the vector vanishes.
        let across = unit.cross(&vector);
        let size = vector.length(&sqrt);
        assert!(across.length(&sqrt) <= 1e-9 * size);
        assert!(unit.dot(&vector) > 0.0);
    }
    let nowhere = v(0.0, 0.0, 0.0).unit(&sqrt);
    assert!(nowhere.x.is_nan() && nowhere.y.is_nan() && nowhere.z.is_nan());
}

#[test]
fn near_zero_asks_every_component() {
    assert!(v(0.0, 0.0, 0.0).near_zero(1e-8, 0.0));
    assert!(v(9e-9, -9e-9, 9e-9).near_zero(1e-8, 0.0));
    assert!(!v(1e-8, 0.0, 0.0).near_zero(1e-8, 0.0));
    assert!(!v(0.0, -2e-8, 0.0).near_zero(1e-8, 0.0));
    assert!(!v(0.0, 0.0, 1.0).near_zero(1e-8, 0.0));
    assert!(!v(f64::NAN, 0.0, 0.0).near_zero(1e-8, 0.0));
}

#[test]
fn reflect_mirrors_at_the_normal() {
    assert_eq!(v(0.6, -0.8, 0.0).reflect(&v(0.0, 1.0, 0.0)), v(0.6, 0.8, 0.0));
    assert_eq!(v(0.0, 0.0, -1.0).reflect(&v(0.0, 0.0, 1.0)), v(0.0, 0.0, 1.0));
    // A vector along the surface stays.
    assert_eq!(v(1.0, 0.0, 0.0).reflect(&v(0.0, 1.0, 0.0)), v(1.0, 0.0, 0.0));
    // Mirrored twice, a vector is itself again.
    let normal = v(1.0, 2.0, 2.0).unit(&sqrt);
    let there = v(0.3, -0.4, 0.5).reflect(&normal);
    assert!(close(there.reflect(&normal), v(0.3, -0.4, 0.5)));
}

#[test]
fn refract_follows_snell() {
    // Straight on, a ray goes straight through.
    assert_eq!(v(0.0, -1.0, 0.0).refract(&v(0.0, 1.0, 0.0), 1.0 / 1.5, 1.0, 0.0, &sqrt), v(0.0, -1.0, 0.0));
    // With the ratio one nothing bends.
    assert!(close(v(0.6, -0.8, 0.0).refract(&v(0.0, 1.0, 0.0), 1.0, 1.0, 0.0, &sqrt), v(0.6, -0.8, 0.0)));
    // Into glass the sine shrinks by the ratio.
    let bent = v(0.6, -0.8, 0.0).refract(&v(0.0, 1.0, 0.0), 1.0 / 1.5, 1.0, 0.0, &sqrt);
    assert!((bent.x - 0.4).abs() < 1e-12);
    assert!((bent.y + 0.84f64.sqrt()).abs() < 1e-12);
    assert!((bent.length(&sqrt) - 1.0).abs() < 1e-9);
}

#[test]
fn random_unit_vector_brings_the_draw_to_unit_length() {
    assert_eq!(Vec3::random_unit_vector(v(3.0, 0.0, 4.0), 1e-8, 0.0, 1.0, &sqrt), v(0.6, 0.0, 0.8));
    assert_eq!(Vec3::random_unit_vector(v(1e-9, 0.0, -1e-9), 1e-8, 0.0, 1.0, &sqrt), v(0.0, 0.0, 1.0));
    assert_eq!(Vec3::random_unit_vector(v(0.0, 0.0, 0.0), 1e-8, 0.0, 1.0, &sqrt), v(0.0, 0.0, 1.0));
}

#[test]
fn random_on_unit_hemisphere_turns_to_the_normal() {
    let normal = v(0.0, 1.0, 0.0);
    assert_eq!(Vec3::random_on_unit_hemisphere(&normal, v(0.6, 0.8, 0.0), 0.0), v(0.6, 0.8, 0.0));
    assert_eq!(Vec3::random_on_unit_hemisphere(&normal, v(0.6, -0.8, 0.0), 0.0), v(-0.6, 0.8, 0.0));
    assert_eq!(Vec3::random_on_unit_hemisphere(&normal, v(1.0, 0.0, 0.0), 0.0), v(-1.0, 0.0, 0.0));
}

#[test]
fn within_unit_disk_counts_the_rim() {
    assert!(Vec3::within_unit_disk(0.0, 0.0, 1.0));
    assert!(Vec3::within_unit_disk(0.6, 0.8, 1.0));
    assert!(Vec3::within_unit_disk(-1.0, 0.0, 1.0));
    assert!(!Vec3::within_unit_disk(0.8, 0.8, 1.0));
    assert!(!Vec3::within_unit_disk(1.0, 1e-3, 1.0));
}

#[test]
fn packed_map_asks_lane_by_lane() {
    let squares = Packed::from_array([4.0, 9.0, 0.25, 0.0]);
    assert_eq!(squares.map(&sqrt).to_array(), [2.0, 3.0, 0.5, 0.0]);
    let whole = Packed::from_array([1u32, 2, 3]);
    assert_eq!(whole.map(&|x: u32| x * 10).to_array(), [10, 20, 30]);
}

#[test]
fn packed_vectors_have_the_lengths_of_their_lanes() {
    let lanes = [v(3.0, 0.0, 4.0), v(1.0, 2.0, 2.0), v(0.1, 0.2, 0.3), v(-5.0, 0.0, 0.0)];
    let packed: PackedVec3<f64, 4> = PackedVec3::from_vec3s(&lanes);
    let lengths = packed.length(&sqrt);
    let units = packed.unit_vector(&sqrt);
    for i in 0..4 {
        assert_eq!(lengths.at(i), lanes[i].length(&sqrt));
        assert_eq!(units.at(i), lanes[i].unit(&sqrt));
        assert!((units.at(i).length(&sqrt) - 1.0).abs() < 1e-9);
    }
    assert_eq!(lengths.at(0), 5.0);
    assert_eq!(units.at(3), v(-1.0, 0.0, 0.0));
}

#[test]
fn the_sky_is_white_below_and_blue_above() {
    let zenith = Color::new(0.5, 0.7, 1.0);
    assert_eq!(Color::sky(&v(0.0, 1.0, 0.0), zenith, 1.0, 0.5), zenith);
    assert_eq!(Color::sky(&v(0.0, -1.0, 0.0), zenith, 1.0, 0.5), Color::white(1.0));
    assert_eq!(Color::sky(&v(1.0, 0.0, 0.0), zenith, 1.0, 0.5), Color::new(0.75, 0.85, 1.0));
    assert_eq!(Color::sky(&v(0.0, 0.5, 0.0), zenith, 1.0, 0.5), Color::new(0.25 + 0.75 * 0.5, 0.25 + 0.75 * 0.7, 1.0));
    assert_eq!(Color::white(3u8), Color::new(3, 3, 3));
}

fn straight_camera() -> Camera<f64> {
    // At the origin, looking down the negative z axis at a viewport of
    // 4 by 2 that lies 1 ahead.
    Camera::new(400, 200, 4.0, 2.0, 1.0, 0.0, v(0.0, 0.0, 0.0), v(0.0, 0.0, -5.0), v(0.0, 1.0, 0.0), 2.0, &sqrt)
}

#[test]
fn the_camera_frames_its_viewport() {
    let camera = straight_camera();
    assert_eq!(camera.image_width(), 400);
    assert_eq!(camera.image_height(), 200);
    assert_eq!(camera.center, v(0.0, 0.0, 0.0));
    assert_eq!(camera.viewport_u, v(4.0, 0.0, 0.0));
    assert_eq!(camera.viewport_v, v(0.0, -2.0, 0.0));
    assert_eq!(camera.viewport_upper_left_corner, v(-2.0, 1.0, -1.0));
    assert_eq!(camera.defocus_u, v(0.0, 0.0, 0.0));
    assert_eq!(camera.defocus_v, v(0.0, 0.0, 0.0));
}

#[test]
fn the_camera_sends_rays_through_its_viewport() {
    let camera = straight_camera();
    let middle = camera.get_ray(0.5, 0.5, v(0.3, -0.2, 0.0), &sqrt);
    assert_eq!(middle.origin(), v(0.0, 0.0, 0.0));
    assert_eq!(middle.direction(), v(0.0, 0.0, -1.0));
    let corner = camera.get_ray(0.0, 0.0, v(0.0, 0.0, 0.0), &sqrt);
    assert!(close(corner.direction(), v(-2.0, 1.0, -1.0).unit(&sqrt)));
    let right = camera.get_ray(1.0, 0.5, v(0.0, 0.0, 0.0), &sqrt);
    assert!(close(right.direction(), v(2.0, 0.0, -1.0).unit(&sqrt)));
    assert!((right.direction().length(&sqrt) - 1.0).abs() < 1e-9);
}

#[test]
fn a_lens_moves_the_start_of_the_rays() {
    let camera = Camera::new(
        100,
        100,
        2.0,
        2.0,
        1.0,
        0.5,
        v(1.0, 2.0, 3.0),
        v(1.0, 2.0, -3.0),
        v(0.0, 1.0, 0.0),
        2.0,
        &sqrt,
    );
    assert_eq!(camera.defocus_u, v(0.5, 0.0, 0.0));
    assert_eq!(camera.defocus_v, v(0.0, 0.5, 0.0));
    let ray = camera.get_ray(0.5, 0.5, v(1.0, -1.0, 0.0), &sqrt);
    assert_eq!(ray.origin(), v(1.5, 1.5, 3.0));
    // The ray leads through the middle of the viewport, at (1, 2, 2).
    assert!(close(ray.direction(), v(-0.5, 0.5, -1.0).unit(&sqrt)));
}

fn to_byte(x: f64) -> u8 {
    x as u8
}

#[test]
fn a_color_becomes_three_bytes() {
    assert_eq!(Color::new(1.0, 1.0, 1.0).to_u8_array(2.0, 255.999, &sqrt, &to_byte), [255, 255, 255]);
    assert_eq!(Color::new(0.0, 0.0, 0.0).to_u8_array(2.0, 255.999, &sqrt, &to_byte), [0, 0, 0]);
    // The root of a quarter is a half: 127.9995 is cut down to 127.
    assert_eq!(Color::new(0.25, 0.0625, 0.81).to_u8_array(2.0, 255.999, &sqrt, &to_byte), [127, 63, 230]);
    // Beyond full light the byte stays at its end.
    assert_eq!(Color::new(2.0, 1.5, 1.0001).to_u8_array(2.0, 255.999, &sqrt, &to_byte), [255, 255, 255]);
}
