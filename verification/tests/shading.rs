use path_tracer::camera::{background_color, ray_color, ray_color_with, SKY_GREEN_RAW};
use path_tracer::fixed::{Fixed, SCALE};
use path_tracer::hit::HittableList;
use path_tracer::material::{AnyMaterial, Lambertian, Metal};
use path_tracer::ray::Ray;
use path_tracer::sphere::Sphere;
use path_tracer::vector::{unit_vector, Vector3};
use rand::rngs::StdRng;
use rand::SeedableRng;

fn v(x: i32, y: i32, z: i32) -> Vector3 {
    Vector3::new(Fixed::from_int(x), Fixed::from_int(y), Fixed::from_int(z))
}

fn half() -> Vector3 {
    Vector3::new(Fixed::ratio(1, 2), Fixed::ratio(1, 2), Fixed::ratio(1, 2))
}

fn sky_blue() -> Vector3 {
    Vector3::new(Fixed::ratio(1, 2), Fixed::from_raw(SKY_GREEN_RAW), Fixed::one())
}

fn float_of(x: Fixed) -> f64 {
    x.raw as f64 / SCALE as f64
}

fn mirror_world() -> HittableList<Sphere> {
    let mut world = HittableList::new();
    world.add(Sphere::new(v(0, 0, -3), Fixed::one(), AnyMaterial::Metal(Metal::new(half()))));
    world
}

fn diffuse_world() -> HittableList<Sphere> {
    let mut world = HittableList::new();
    world.add(Sphere::new(
        v(0, 0, -3),
        Fixed::one(),
        AnyMaterial::Lambertian(Lambertian::new(half())),
    ));
    world.add(Sphere::new(
        Vector3::new(Fixed::zero(), Fixed::ratio(-201, 2), Fixed::from_int(-1)),
        Fixed::from_int(100),
        AnyMaterial::Lambertian(Lambertian::new(half())),
    ));
    world
}

#[test]
fn sky_green_is_seven_tenths() {
    assert_eq!(Fixed::ratio(7, 10).raw, SKY_GREEN_RAW);
}

#[test]
fn no_depth_left_gives_black() {
    let mut rng = StdRng::seed_from_u64(21);
    for world in [mirror_world(), diffuse_world(), HittableList::new()] {
        for d in [v(0, 0, -1), v(0, 1, 0), v(0, -1, 0), v(1, 1, 1)] {
            assert_eq!(ray_color(Ray::new(v(0, 0, 0), d), 0, &world, &mut rng), v(0, 0, 0));
        }
    }
}

#[test]
fn background_straight_up_and_down() {
    assert_eq!(background_color(&Ray::new(v(0, 0, 0), v(0, 1, 0))), sky_blue());
    assert_eq!(background_color(&Ray::new(v(0, 0, 0), v(0, -1, 0))), v(1, 1, 1));
    // The length of the direction does not matter.
    assert_eq!(background_color(&Ray::new(v(3, 2, 1), v(0, 7, 0))), sky_blue());
    assert_eq!(background_color(&Ray::new(v(3, 2, 1), v(0, -7, 0))), v(1, 1, 1));
}

#[test]
fn background_at_the_horizon_is_the_middle_of_the_gradient() {
    let c = background_color(&Ray::new(v(0, 0, 0), v(0, 0, -1)));
    assert_eq!(c.x, Fixed::ratio(3, 4));
    assert!((float_of(c.y) - 0.85).abs() < 1e-9);
    assert_eq!(c.z, Fixed::one());
}

#[test]
fn a_ray_that_misses_gets_the_background() {
    let mut rng = StdRng::seed_from_u64(22);
    let up = Ray::new(v(0, 0, 0), v(0, 1, 0));
    assert_eq!(ray_color(up, 5, &mirror_world(), &mut rng), sky_blue());
    let empty: HittableList<Sphere> = HittableList::new();
    let down = Ray::new(v(0, 0, 0), v(0, -1, 0));
    assert_eq!(ray_color(down, 1, &empty, &mut rng), v(1, 1, 1));
}

#[test]
fn a_hit_with_one_bounce_left_gives_black() {
    let mut rng = StdRng::seed_from_u64(23);
    let r = Ray::new(v(0, 0, 0), v(0, 0, -1));
    assert_eq!(ray_color(r, 1, &mirror_world(), &mut rng), v(0, 0, 0));
    assert_eq!(ray_color(r, 1, &diffuse_world(), &mut rng), v(0, 0, 0));
}

#[test]
fn a_mirror_bounce_attenuates_the_background() {
    let mut rng = StdRng::seed_from_u64(24);
    let r = Ray::new(v(0, 0, 0), v(0, 0, -1));
    let got = ray_color(r, 2, &mirror_world(), &mut rng);
    // The hit is at (0, 0, -2) with normal (0, 0, 1). The ray goes on along
    // n - 2 (n . a) a = (-1/2, -1/2, 1/2), and leaves the sphere.
    let scattered = Ray::new(
        v(0, 0, -2),
        Vector3::new(Fixed::ratio(-1, 2), Fixed::ratio(-1, 2), Fixed::ratio(1, 2)),
    );
    assert_eq!(got, half() * background_color(&scattered));
    let y = -0.5f64 / 0.75f64.sqrt();
    let a = 0.5 * (y + 1.0);
    let expected = [
        0.5 * ((1.0 - a) + a * 0.5),
        0.5 * ((1.0 - a) + a * 0.7),
        0.5 * ((1.0 - a) + a * 1.0),
    ];
    assert!((float_of(got.x) - expected[0]).abs() < 1e-8);
    assert!((float_of(got.y) - expected[1]).abs() < 1e-8);
    assert!((float_of(got.z) - expected[2]).abs() < 1e-8);
    // More depth changes nothing once the ray has left the scene.
    assert_eq!(ray_color(r, 50, &mirror_world(), &mut rng), got);
}

#[test]
fn diffuse_colour_is_darker_than_the_sky_and_fixed_by_the_seed() {
    let r = Ray::new(v(0, 0, 0), v(0, 0, -1));
    let world = diffuse_world();
    let a = ray_color(r, 10, &world, &mut StdRng::seed_from_u64(7));
    let b = ray_color(r, 10, &world, &mut StdRng::seed_from_u64(7));
    assert_eq!(a, b);
    for c in [a.x, a.y, a.z] {
        assert!(c.raw >= 0 && c.raw <= SCALE / 2);
    }
}

#[test]
fn a_sphere_of_radius_zero_does_not_stop_the_tracer() {
    let mut world = HittableList::new();
    let diffuse = AnyMaterial::Lambertian(Lambertian::new(half()));
    let mirror = AnyMaterial::Metal(Metal::new(half()));
    world.add(Sphere::new(v(0, 0, -3), Fixed::zero(), diffuse));
    world.add(Sphere::new(v(0, 0, -6), Fixed::zero(), mirror));
    let mut rng = StdRng::seed_from_u64(25);
    let r = Ray::new(v(0, 0, 0), v(0, 0, -1));
    for depth in 0..10 {
        let c = ray_color(r, depth, &world, &mut rng);
        for x in [c.x, c.y, c.z] {
            assert!(x.raw >= 0 && x.raw <= SCALE);
        }
    }
}

#[test]
fn a_diffuse_bounce_follows_the_direction_handed_in() {
    let world = diffuse_world();
    let r = Ray::new(v(0, 0, 0), v(0, 0, -1));
    // The hit is at (0, 0, -2) with normal (0, 0, 1); with the direction
    // (0, 1, 0) drawn the ray goes on along (0, 1, 1) and leaves the scene.
    let got = ray_color_with(r, 2, &world, &vec![v(0, 1, 0)]);
    let scattered = Ray::new(v(0, 0, -2), v(0, 1, 1));
    assert_eq!(got, half() * background_color(&scattered));
    let y = 0.5f64.sqrt();
    let a = 0.5 * (y + 1.0);
    assert!((float_of(got.x) - 0.5 * (1.0 - a + 0.5 * a)).abs() < 1e-8);
    assert!((float_of(got.y) - 0.5 * (1.0 - a + 0.7 * a)).abs() < 1e-8);
    assert!((float_of(got.z) - 0.5).abs() < 1e-8);
    // Directions that are not used change nothing.
    assert_eq!(ray_color_with(r, 2, &world, &vec![v(0, 1, 0), v(1, 0, 0), v(0, 0, 1)]), got);
    // Another direction gives another colour.
    assert_ne!(ray_color_with(r, 2, &world, &vec![v(1, 0, 0)]), got);
}

#[test]
fn a_bounce_without_a_direction_uses_the_spare_one() {
    let world = diffuse_world();
    let r = Ray::new(v(0, 0, 0), v(0, 0, -1));
    let spare = unit_vector(&half());
    assert_eq!(ray_color_with(r, 2, &world, &vec![]), ray_color_with(r, 2, &world, &vec![spare]));
    let scattered = Ray::new(v(0, 0, -2), v(0, 0, 1) + spare);
    assert_eq!(ray_color_with(r, 2, &world, &vec![]), half() * background_color(&scattered));
}

#[test]
fn two_diffuse_bounces_multiply_the_albedo_twice() {
    let world = diffuse_world();
    // Down onto the ground at (0, -0.5, -1), then along (0, 0.5, -2) toward
    // the centre of the sphere, then out along its normal plus (0, 1, 0).
    let r = Ray::new(v(0, 0, -1), v(0, -1, 0));
    let none = ray_color_with(r, 1, &world, &vec![]);
    assert_eq!(none, v(0, 0, 0));
    let toward = Vector3::new(Fixed::zero(), Fixed::ratio(-1, 2), Fixed::from_int(-2));
    let one = ray_color_with(r, 2, &world, &vec![toward]);
    assert_eq!(one, v(0, 0, 0));
    let got = ray_color_with(r, 3, &world, &vec![toward, v(0, 1, 0)]);
    for c in [got.x, got.y, got.z] {
        // A quarter of a sky colour.
        assert!(float_of(c) > 0.1 && float_of(c) <= 0.25);
    }
    // The same draws give the same colour.
    assert_eq!(got, ray_color_with(r, 3, &world, &vec![toward, v(0, 1, 0)]));
}

#[test]
fn without_depth_nothing_is_gathered_whatever_is_handed_in() {
    let world = mirror_world();
    let r = Ray::new(v(0, 0, 0), v(0, 0, -1));
    assert_eq!(ray_color_with(r, 0, &world, &vec![v(0, 1, 0)]), v(0, 0, 0));
    // A mirror draws nothing.
    let mut rng = StdRng::seed_from_u64(26);
    assert_eq!(ray_color_with(r, 5, &world, &vec![]), ray_color(r, 5, &world, &mut rng));
}
