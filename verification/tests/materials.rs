use path_tracer::fixed::{Fixed, SCALE};
use path_tracer::hit::HitRecord;
use path_tracer::material::{AnyMaterial, Lambertian, Material, Metal, ScatterResult};
use path_tracer::ray::Ray;
use path_tracer::vector::Vector3;
use rand::rngs::StdRng;
use rand::SeedableRng;

fn v(x: i32, y: i32, z: i32) -> Vector3 {
    Vector3::new(Fixed::from_int(x), Fixed::from_int(y), Fixed::from_int(z))
}

fn q(x: i64, y: i64, z: i64) -> Vector3 {
    Vector3::new(Fixed::ratio(x, 4), Fixed::ratio(y, 4), Fixed::ratio(z, 4))
}

fn record(material: AnyMaterial) -> HitRecord {
    HitRecord::new(v(1, 2, 3), Fixed::from_int(5), v(0, 0, 1), &v(0, 0, -1), material)
}

#[test]
fn scatter_result_holds_what_it_was_given() {
    let ray = Ray::new(v(1, 2, 3), v(4, 5, 6));
    let s = ScatterResult::new(ray, v(7, 8, 9));
    assert_eq!(s.scattered, ray);
    assert_eq!(s.attenuated, v(7, 8, 9));
}

#[test]
fn lambertian_scatters_along_normal_plus_sample() {
    let m = Lambertian::new(q(1, 2, 3));
    let s = m.scatter_with(record(AnyMaterial::Lambertian(m)), q(1, -1, 2));
    assert_eq!(s.scattered.origin, v(1, 2, 3));
    assert_eq!(s.scattered.direction, q(1, -1, 6));
    assert_eq!(s.attenuated, q(1, 2, 3));
}

#[test]
fn lambertian_falls_back_to_the_normal() {
    let m = Lambertian::new(q(1, 2, 3));
    let rec = record(AnyMaterial::Lambertian(m));
    // The sample cancels the normal.
    let s = m.scatter_with(rec, v(0, 0, -1));
    assert_eq!(s.scattered.direction, v(0, 0, 1));
    // The sample all but cancels the normal.
    let almost =
        Vector3::new(Fixed::from_raw(42), Fixed::from_raw(-42), Fixed::from_raw(-SCALE + 42));
    let s = m.scatter_with(rec, almost);
    assert_eq!(s.scattered.direction, v(0, 0, 1));
    // One raw unit more, and the sum is kept.
    let not_quite = Vector3::new(Fixed::from_raw(43), Fixed::zero(), Fixed::from_raw(-SCALE));
    let s = m.scatter_with(rec, not_quite);
    assert_eq!(
        s.scattered.direction,
        Vector3::new(Fixed::from_raw(43), Fixed::zero(), Fixed::zero())
    );
}

#[test]
fn lambertian_scatter_draws_a_direction_near_the_normal() {
    let m = Lambertian::new(q(1, 2, 3));
    let rec = record(AnyMaterial::Lambertian(m));
    let mut rng = StdRng::seed_from_u64(11);
    let mut seen_different = false;
    let first = m.scatter(rec, &mut rng).unwrap();
    for _ in 0..200 {
        let s = m.scatter(rec, &mut rng).unwrap();
        assert_eq!(s.scattered.origin, v(1, 2, 3));
        assert_eq!(s.attenuated, q(1, 2, 3));
        // direction - normal has the length one
        let sample = s.scattered.direction - rec.normal;
        let len_sq = sample.length_squared().raw as f64 / SCALE as f64;
        assert!((len_sq - 1.0).abs() < 1e-6);
        if s != first {
            seen_different = true;
        }
    }
    assert!(seen_different);
}

#[test]
fn metal_mirrors_the_normal_about_the_albedo() {
    let albedo = q(2, 2, 2);
    let m = Metal::new(albedo);
    let mut rng = StdRng::seed_from_u64(12);
    let s = m.scatter(record(AnyMaterial::Metal(m)), &mut rng).unwrap();
    // n - 2 (n . a) a = (0, 0, 1) - 2 * 1/2 * (1/2, 1/2, 1/2)
    assert_eq!(s.scattered.origin, v(1, 2, 3));
    assert_eq!(s.scattered.direction, q(-2, -2, 2));
    assert_eq!(s.attenuated, albedo);
}

#[test]
fn metal_reflect_from_is_what_scatter_gives() {
    let m = Metal::new(q(3, 2, 1));
    let rec = record(AnyMaterial::Metal(m));
    let direct = m.reflect_from(rec);
    assert_eq!(Some(direct), m.scatter(rec, &mut StdRng::seed_from_u64(3)));
    assert_eq!(direct.attenuated, q(3, 2, 1));
    assert_eq!(direct.scattered.origin, v(1, 2, 3));
}

#[test]
fn metal_scatter_does_not_depend_on_the_generator() {
    let m = Metal::new(q(3, 2, 1));
    let rec = record(AnyMaterial::Metal(m));
    let a = m.scatter(rec, &mut StdRng::seed_from_u64(1));
    let b = m.scatter(rec, &mut StdRng::seed_from_u64(2));
    assert_eq!(a, b);
    // (0, 0, 1) - 2 * 1/4 * (3/4, 1/2, 1/4)
    assert_eq!(
        a.unwrap().scattered.direction,
        Vector3::new(Fixed::ratio(-3, 8), Fixed::ratio(-1, 4), Fixed::ratio(7, 8))
    );
}

#[test]
fn any_material_scatters_with_the_direction_handed_in() {
    let l = Lambertian::new(q(1, 2, 3));
    let m = Metal::new(q(2, 2, 2));
    let rec = record(AnyMaterial::Lambertian(l));
    assert_eq!(
        AnyMaterial::Lambertian(l).scatter_with(rec, q(1, -1, 2)),
        Some(l.scatter_with(rec, q(1, -1, 2)))
    );
    assert_eq!(AnyMaterial::Metal(m).scatter_with(rec, q(1, -1, 2)), Some(m.reflect_from(rec)));
}

#[test]
fn any_material_scatters_as_what_it_holds() {
    let l = Lambertian::new(q(1, 2, 3));
    let m = Metal::new(q(2, 2, 2));
    let rec = record(AnyMaterial::Metal(m));
    assert_eq!(
        AnyMaterial::Metal(m).scatter(rec, &mut StdRng::seed_from_u64(1)),
        m.scatter(rec, &mut StdRng::seed_from_u64(1))
    );
    assert_eq!(
        AnyMaterial::Lambertian(l).scatter(rec, &mut StdRng::seed_from_u64(5)),
        l.scatter(rec, &mut StdRng::seed_from_u64(5))
    );
}
