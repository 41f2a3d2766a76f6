use path_tracer::fixed::{Fixed, MAX_RAW, SCALE};
use path_tracer::hit::{HitRecord, Hittable};
use path_tracer::interval::Interval;
use path_tracer::material::{AnyMaterial, Lambertian, Metal};
use path_tracer::ray::Ray;
use path_tracer::sphere::{Quadratic, Sphere};
use path_tracer::vector::{dot, Vector3};

fn v(x: i32, y: i32, z: i32) -> Vector3 {
    Vector3::new(Fixed::from_int(x), Fixed::from_int(y), Fixed::from_int(z))
}

fn grey() -> AnyMaterial {
    AnyMaterial::Lambertian(Lambertian::new(Vector3::new(
        Fixed::ratio(1, 2),
        Fixed::ratio(1, 2),
        Fixed::ratio(1, 2),
    )))
}

fn window() -> Interval {
    Interval::new(Fixed::ratio(1, 1000), Fixed::max_value())
}

fn fixed_of(x: f64) -> Fixed {
    Fixed::from_raw((x * SCALE as f64).round() as i64)
}

fn float_of(x: Fixed) -> f64 {
    x.raw as f64 / SCALE as f64
}

#[test]
fn ray_from_outside_through_the_center_hits_the_near_side() {
    let s = Sphere::new(v(0, 0, 0), Fixed::from_int(2), grey());
    let r = Ray::new(v(0, 0, 5), v(0, 0, -1));
    let h = s.hit(&r, window()).unwrap();
    assert_eq!(h.t, Fixed::from_int(3));
    assert_eq!(h.point, v(0, 0, 2));
    assert_eq!(h.normal, v(0, 0, 1));
    assert!(h.is_front_face);
    assert_eq!(h.material, grey());
}

#[test]
fn ray_from_the_center_hits_at_the_radius() {
    for radius in [1, 2, 3, 10, 100] {
        for d in [v(1, 0, 0), v(0, 1, 0), v(0, 0, 1), v(-1, 0, 0), v(0, -1, 0), v(0, 0, -1)] {
            let s = Sphere::new(v(0, 0, 0), Fixed::from_int(radius), grey());
            let r = Ray::new(v(0, 0, 0), d);
            let h = s.hit(&r, window()).unwrap();
            assert_eq!(h.t, Fixed::from_int(radius));
            assert_eq!(h.point, d * Fixed::from_int(radius));
            // The outward normal runs along the ray, so the record holds it
            // turned round.
            assert!(!h.is_front_face);
            assert_eq!(h.normal, -d);
        }
    }
}

#[test]
fn ray_past_the_sphere_misses() {
    let s = Sphere::new(v(0, 0, 0), Fixed::from_int(2), grey());
    assert!(s.hit(&Ray::new(v(0, 3, 5), v(0, 0, -1)), window()).is_none());
    assert!(s.hit(&Ray::new(v(3, 0, 5), v(0, 0, -1)), window()).is_none());
    // Just inside and just outside the radius.
    let inside = Vector3::new(Fixed::ratio(199, 100), Fixed::zero(), Fixed::from_int(5));
    let outside = Vector3::new(Fixed::ratio(201, 100), Fixed::zero(), Fixed::from_int(5));
    assert!(s.hit(&Ray::new(inside, v(0, 0, -1)), window()).is_some());
    assert!(s.hit(&Ray::new(outside, v(0, 0, -1)), window()).is_none());
}

#[test]
fn ray_from_outside_along_an_axis_hits_at_the_distance_to_the_surface() {
    for (radius, distance) in [(1, 2), (2, 5), (3, 100), (100, 101), (20_000, 40_000)] {
        for e in [v(1, 0, 0), v(0, 1, 0), v(0, 0, 1), v(-1, 0, 0), v(0, -1, 0), v(0, 0, -1)] {
            let s = Sphere::new(v(0, 0, 0), Fixed::from_int(radius), grey());
            let r = Ray::new(-(e * Fixed::from_int(distance)), e);
            let h = s.hit(&r, window()).unwrap();
            assert_eq!(h.t, Fixed::from_int(distance - radius));
            assert_eq!(h.point, -(e * Fixed::from_int(radius)));
            assert!(h.is_front_face);
            assert_eq!(h.normal, -e);
        }
    }
    // The distance need not be a whole number.
    let s = Sphere::new(v(0, 0, 0), Fixed::from_int(2), grey());
    let r = Ray::new(Vector3::new(Fixed::zero(), Fixed::zero(), Fixed::ratio(22, 7)), v(0, 0, -1));
    let h = s.hit(&r, window()).unwrap();
    assert_eq!(h.t, Fixed::ratio(22, 7) - Fixed::from_int(2));
    assert_eq!(h.normal, v(0, 0, 1));
}

#[test]
fn spheres_far_away_are_hit_where_they_lie() {
    // The square of 100000 is beyond the range of the numbers.
    let s = Sphere::new(v(0, 0, 0), Fixed::from_int(60_000), grey());
    let h = s.hit(&Ray::new(v(0, 0, -100_000), v(0, 0, 1)), window()).unwrap();
    assert_eq!(h.t, Fixed::from_int(40_000));
    assert_eq!(h.point, v(0, 0, -60_000));
    assert_eq!(h.normal, v(0, 0, -1));
    assert!(h.is_front_face);
    // From the centre of a large sphere.
    let s = Sphere::new(v(0, 0, 0), Fixed::from_int(50_000), grey());
    let h = s.hit(&Ray::new(v(0, 0, 0), v(0, 0, 1)), window()).unwrap();
    assert_eq!(h.t, Fixed::from_int(50_000));
    assert_eq!(h.normal, v(0, 0, -1));
    // A small sphere a hundred million away, and a ray just past it.
    let s = Sphere::new(v(3, 100_000_000, -4), Fixed::from_int(2), grey());
    let h = s.hit(&Ray::new(v(3, 0, -4), v(0, 1, 0)), window()).unwrap();
    assert_eq!(h.t, Fixed::from_int(99_999_998));
    assert_eq!(h.point, v(3, 99_999_998, -4));
    assert_eq!(h.normal, v(0, -1, 0));
    assert!(s.hit(&Ray::new(v(6, 0, -4), v(0, 1, 0)), window()).is_none());
    // A sphere as large as the range, seen from near its surface.
    let s = Sphere::new(v(0, -1_000_000_000, 0), Fixed::from_int(999_999_990), grey());
    let h = s.hit(&Ray::new(v(0, 0, 0), v(0, -1, 0)), window()).unwrap();
    assert_eq!(h.t, Fixed::from_int(10));
    assert_eq!(h.normal, v(0, 1, 0));
    // From one end of the range to the other.
    let s = Sphere::new(v(0, 0, 2_000_000_000), Fixed::from_int(5), grey());
    let h = s.hit(&Ray::new(v(0, 0, -2_000_000_000), v(0, 0, 125)), window()).unwrap();
    // Here the discriminant is what is left of two numbers of 24 digits,
    // and the hit is found to a hundredth.
    assert!((float_of(h.t) - 31_999_999.96).abs() < 0.01);
    assert!((float_of(h.point.z) - 1_999_999_995.0).abs() < 1.0);
    assert!(h.is_front_face);
}

#[test]
fn hits_far_away_agree_with_floating_point() {
    let center = (123_456.5f64, -654_321.25f64, 1_000_000.0f64);
    let radius = 250_000.0f64;
    let s = Sphere::new(
        Vector3::new(fixed_of(center.0), fixed_of(center.1), fixed_of(center.2)),
        fixed_of(radius),
        grey(),
    );
    let mut hits = 0;
    for i in -10..=10 {
        for j in -10..=10 {
            let d = (0.1 + i as f64 / 40.0, -0.6 + j as f64 / 40.0, 1.0f64);
            let r = Ray::new(v(0, 0, 0), Vector3::new(fixed_of(d.0), fixed_of(d.1), fixed_of(d.2)));
            let a = d.0 * d.0 + d.1 * d.1 + d.2 * d.2;
            let h = d.0 * center.0 + d.1 * center.1 + d.2 * center.2;
            let c = center.0 * center.0 + center.1 * center.1 + center.2 * center.2
                - radius * radius;
            let disc = h * h - a * c;
            let got = s.hit(&r, window());
            if disc.abs() < 1e6 {
                continue;
            }
            if disc < 0.0 {
                assert!(got.is_none());
            } else {
                let t = (h - disc.sqrt()) / a;
                let rec = got.unwrap();
                hits += 1;
                assert!((float_of(rec.t) - t).abs() < 1e-2);
                assert!((float_of(rec.point.x) - t * d.0).abs() < 1e-2);
                assert!((float_of(rec.point.z) - t * d.2).abs() < 1e-2);
                let n = (t * d.1 - center.1) / radius;
                assert!((float_of(rec.normal.y) - n).abs() < 1e-6);
                assert!(rec.is_front_face);
            }
        }
    }
    assert!(hits > 50);
}

#[test]
fn a_long_direction_hits_at_a_small_parameter() {
    let s = Sphere::new(v(0, 0, 10), Fixed::from_int(1), grey());
    let whole = Interval::new(Fixed::zero(), Fixed::max_value());
    // A squared length beyond the number type.
    let h = s.hit(&Ray::new(v(0, 0, 0), v(0, 0, 50_000)), whole).unwrap();
    assert!((float_of(h.t) - 9.0 / 50_000.0).abs() < 1e-9);
    // The parameter is rounded to 2^-32, which the direction makes 50000
    // times as much in the point.
    assert!((float_of(h.normal.z) + 1.0).abs() < 1e-4);
    // Both hits lie before the shadow bias.
    assert!(s.hit(&Ray::new(v(0, 0, 0), v(0, 0, 50_000)), window()).is_none());
    assert_eq!(s.hit(&Ray::new(v(0, 0, 0), v(0, 0, 5)), window()).unwrap().t, Fixed::ratio(9, 5));
    // A direction as long as the range.
    let far = Sphere::new(v(0, 0, 1_000_000_000), Fixed::from_int(100_000_000), grey());
    let h = far.hit(&Ray::new(v(0, 0, 0), v(0, 0, 2_000_000_000)), window()).unwrap();
    assert!((float_of(h.t) - 0.45).abs() < 1e-8);
    assert!((float_of(h.point.z) - 900_000_000.0).abs() < 20.0);
    let h = far.hit(&Ray::new(v(0, 0, 0), v(1, -1, 2_000_000_000)), window()).unwrap();
    assert!((float_of(h.t) - 0.45).abs() < 1e-8);
}

#[test]
fn a_hit_beyond_the_range_is_no_hit() {
    // The far side of the sphere is not a place.
    let s = Sphere::new(v(0, 0, 2_147_483_000), Fixed::from_int(1000), grey());
    let r = Ray::new(v(0, 0, 2_147_483_000), v(0, 0, 1));
    assert!(s.hit(&r, window()).is_none());
    let back = Ray::new(v(0, 0, 2_147_483_000), v(0, 0, -1));
    assert_eq!(s.hit(&back, window()).unwrap().t, Fixed::from_int(1000));
}

#[test]
fn a_large_sphere_in_reach_is_hit_where_it_lies() {
    let s = Sphere::new(v(0, 0, 0), Fixed::from_int(20_000), grey());
    let r = Ray::new(v(0, 0, -40_000), v(0, 0, 1));
    let q = s.quadratic_for(&r);
    let expected =
        Quadratic::new(Fixed::one(), Fixed::from_int(40_000), Fixed::from_int(1_200_000_000));
    assert_eq!(q, expected);
    let h = s.hit(&r, window()).unwrap();
    assert_eq!(h.t, Fixed::from_int(20_000));
    assert_eq!(h.point, v(0, 0, -20_000));
    assert_eq!(h.normal, v(0, 0, -1));
    // A ground of radius 1000 under a camera at the origin.
    let ground = Sphere::new(v(0, -1000, 0), Fixed::from_int(999), grey());
    let down = Ray::new(v(0, 0, 0), v(0, -1, 0));
    assert_eq!(ground.hit(&down, window()).unwrap().t, Fixed::from_int(1));
}

#[test]
fn sphere_behind_the_ray_is_not_hit() {
    let s = Sphere::new(v(0, 0, 5), Fixed::from_int(1), grey());
    assert!(s.hit(&Ray::new(v(0, 0, 0), v(0, 0, -1)), window()).is_none());
}

#[test]
fn the_window_chooses_the_root() {
    let s = Sphere::new(v(0, 0, 0), Fixed::from_int(2), grey());
    let r = Ray::new(v(0, 0, 5), v(0, 0, -1));
    // Roots at 3 and 7.
    let near = s.hit(&r, Interval::new(Fixed::zero(), Fixed::from_int(10))).unwrap();
    assert_eq!(near.t, Fixed::from_int(3));
    let far = s.hit(&r, Interval::new(Fixed::from_int(3), Fixed::from_int(10))).unwrap();
    assert_eq!(far.t, Fixed::from_int(7));
    assert_eq!(far.point, v(0, 0, -2));
    assert!(!far.is_front_face);
    assert_eq!(far.normal, v(0, 0, 1));
    assert!(s.hit(&r, Interval::new(Fixed::from_int(3), Fixed::from_int(7))).is_none());
    assert!(s.hit(&r, Interval::new(Fixed::from_int(7), Fixed::from_int(10))).is_none());
    assert!(s.hit(&r, Interval::new(Fixed::zero(), Fixed::from_int(3))).is_none());
}

#[test]
fn lowering_the_end_of_the_window_finds_no_other_hit() {
    let s = Sphere::new(v(0, 0, 0), Fixed::from_int(2), grey());
    let r = Ray::new(v(0, 0, 5), v(0, 0, -1));
    let wide = s.hit(&r, Interval::new(Fixed::zero(), Fixed::from_int(10)));
    for limit in 0..=10 {
        let narrow = s.hit(&r, Interval::new(Fixed::zero(), Fixed::from_int(limit)));
        let expected = wide.filter(|h| h.t.lt(Fixed::from_int(limit)));
        assert_eq!(narrow, expected);
    }
}

#[test]
fn quadratic_solve_follows_the_formula() {
    let q = |a: i32, h: i32, c: i32| {
        Quadratic::new(Fixed::from_int(a), Fixed::from_int(h), Fixed::from_int(c))
    };
    // t^2 - 2 * 5 t + 21 = 0 has the roots 3 and 7.
    assert_eq!(q(1, 5, 21).solve(window()), Some(Fixed::from_int(3)));
    // 4 t^2 - 2 * 10 t + 9 = 0 has the roots 1/2 and 9/2.
    assert_eq!(q(4, 10, 9).solve(window()), Some(Fixed::ratio(1, 2)));
    assert_eq!(
        q(4, 10, 9).solve(Interval::new(Fixed::from_int(1), Fixed::from_int(5))),
        Some(Fixed::ratio(9, 2))
    );
    // A negative discriminant.
    assert_eq!(q(1, 1, 2).solve(window()), None);
    // A double root.
    assert_eq!(q(1, 3, 9).solve(window()), Some(Fixed::from_int(3)));
    // A leading coefficient below zero.
    assert_eq!(q(-1, 0, -4).solve(Interval::new(Fixed::from_int(-5), Fixed::from_int(5))), None);
}

#[test]
fn quadratic_without_a_leading_term_has_no_root() {
    let q = Quadratic::new(Fixed::zero(), Fixed::from_int(1), Fixed::from_int(-1));
    assert_eq!(q.solve(Interval::new(Fixed::min_value(), Fixed::max_value())), None);
    let q = Quadratic::new(Fixed::zero(), Fixed::zero(), Fixed::zero());
    assert_eq!(q.solve(Interval::new(Fixed::from_int(-1), Fixed::from_int(1))), None);
}

#[test]
fn quadratic_with_wide_coefficients() {
    let one = SCALE as i128;
    // t^2 - 2 * 100000 t + (100000^2 - 60000^2) = 0 has the roots 40000
    // and 160000, and its last coefficient is beyond the number type.
    let q = Quadratic { a: one, h: 100_000 * one, c: 6_400_000_000 * one };
    assert_eq!(q.solve(window()), Some(Fixed::from_int(40_000)));
    assert_eq!(
        q.solve(Interval::new(Fixed::from_int(40_000), Fixed::max_value())),
        Some(Fixed::from_int(160_000))
    );
    // t^2 - 2 * 10^12 t + 10^24 - 1 = 0 has the roots 10^12 - 1 and
    // 10^12 + 1, both beyond the range.
    let big = 1_000_000_000_000i128;
    let q = Quadratic { a: one, h: big * one, c: (big * big - 1) * one };
    assert_eq!(q.solve(window()), None);
    // The roots 2^33 and 0 of 2^-32 t^2 - 2 t = 0: one is beyond the range
    // and the other on the edge of the window.
    let q = Quadratic { a: 1, h: one, c: 0 };
    assert_eq!(q.solve(Interval::new(Fixed::zero(), Fixed::max_value())), None);
    // Coefficients beyond what a wide number is meant to hold.
    let q = Quadratic { a: one, h: i128::MAX, c: i128::MIN };
    assert_eq!(q.solve(window()), None);
}

#[test]
fn quadratic_with_a_square_beyond_the_number_type() {
    // t^2 - 2 * 50000 t + 1 = 0: the far root is just below 100000.
    let q = Quadratic::new(Fixed::one(), Fixed::from_int(50_000), Fixed::one());
    let far = q.solve(window()).unwrap();
    assert!((float_of(far) - 99_999.99999).abs() < 1e-4);
    // 50000 t^2 - 2 t - 50000 = 0: the far root is just above 1.
    let q = Quadratic::new(Fixed::from_int(50_000), Fixed::from_int(1), Fixed::from_int(-50_000));
    let far = q.solve(window()).unwrap();
    assert!((float_of(far) - 1.00002).abs() < 1e-6);
}

#[test]
fn ray_without_direction_hits_nothing() {
    let s = Sphere::new(v(0, 0, 0), Fixed::from_int(2), grey());
    let everywhere = Interval::new(Fixed::from_raw(i64::MIN), Fixed::from_raw(MAX_RAW));
    assert!(s.hit(&Ray::new(v(0, 0, 0), v(0, 0, 0)), everywhere).is_none());
    assert!(s.hit(&Ray::new(v(0, 0, 5), v(0, 0, 0)), everywhere).is_none());
    assert!(s.hit(&Ray::new(v(0, 0, 2), v(0, 0, 0)), window()).is_none());
}

#[test]
fn sphere_of_radius_zero_gives_a_normal_without_length() {
    let s = Sphere::new(v(0, 0, -3), Fixed::zero(), grey());
    let r = Ray::new(v(0, 0, 0), v(0, 0, -1));
    let h = s.hit(&r, window()).unwrap();
    assert_eq!(h.t, Fixed::from_int(3));
    assert_eq!(h.point, v(0, 0, -3));
    assert_eq!(h.normal, v(0, 0, 0));
    assert!(!h.is_front_face);
    // A ray that does not run through the centre misses.
    assert!(s.hit(&Ray::new(v(0, 1, 0), v(0, 0, -1)), window()).is_none());
}

#[test]
fn sphere_of_negative_radius_turns_its_normal_inside_out() {
    let s = Sphere::new(v(0, 0, 0), Fixed::from_int(-2), grey());
    let r = Ray::new(v(0, 0, 5), v(0, 0, -1));
    let h = s.hit(&r, window()).unwrap();
    assert_eq!(h.t, Fixed::from_int(3));
    // (point - center) / radius = (0, 0, 2) / -2 points inward, along the
    // ray, so the hit counts as one from inside and the normal is negated.
    assert!(!h.is_front_face);
    assert_eq!(h.normal, v(0, 0, 1));
}

#[test]
fn hit_record_turns_the_normal_against_the_ray() {
    let m = AnyMaterial::Metal(Metal::new(v(1, 1, 1)));
    let front = HitRecord::new(v(0, 0, 1), Fixed::one(), v(0, 0, 1), &v(0, 0, -1), m);
    assert!(front.is_front_face);
    assert_eq!(front.normal, v(0, 0, 1));
    let back = HitRecord::new(v(0, 0, 1), Fixed::one(), v(0, 0, 1), &v(0, 0, 1), m);
    assert!(!back.is_front_face);
    assert_eq!(back.normal, v(0, 0, -1));
    // A ray along the surface counts as coming from inside.
    let grazing = HitRecord::new(v(0, 0, 1), Fixed::one(), v(0, 0, 1), &v(1, 0, 0), m);
    assert!(!grazing.is_front_face);
    assert_eq!(grazing.normal, v(0, 0, -1));
    assert_eq!(front.point, v(0, 0, 1));
    assert_eq!(front.t, Fixed::one());
    assert_eq!(front.material, m);
}

#[test]
fn normals_never_point_along_the_ray() {
    let s = Sphere::new(
        Vector3::new(Fixed::ratio(1, 3), Fixed::ratio(-1, 7), Fixed::from_int(-2)),
        Fixed::ratio(3, 2),
        grey(),
    );
    let mut hits = 0;
    for i in -10..=10 {
        for j in -10..=10 {
            let d = Vector3::new(Fixed::ratio(i, 10), Fixed::ratio(j, 10), Fixed::from_int(-1));
            let r = Ray::new(v(0, 0, 1), d);
            if let Some(h) = s.hit(&r, window()) {
                hits += 1;
                assert!(dot(&r.direction, &h.normal).raw <= 0);
                assert!(window().surrounds(h.t));
            }
        }
    }
    assert!(hits > 50);
}

#[test]
fn hits_agree_with_floating_point() {
    let center = (0.25f64, -0.5f64, -3.0f64);
    let radius = 1.25f64;
    let s = Sphere::new(
        Vector3::new(fixed_of(center.0), fixed_of(center.1), fixed_of(center.2)),
        fixed_of(radius),
        grey(),
    );
    let mut hits = 0;
    for i in -20..=20 {
        for j in -20..=20 {
            let d = (i as f64 / 25.0, j as f64 / 25.0, -1.0f64);
            let r = Ray::new(v(0, 0, 0), Vector3::new(fixed_of(d.0), fixed_of(d.1), fixed_of(d.2)));
            let a = d.0 * d.0 + d.1 * d.1 + d.2 * d.2;
            let h = d.0 * center.0 + d.1 * center.1 + d.2 * center.2;
            let c = center.0 * center.0 + center.1 * center.1 + center.2 * center.2
                - radius * radius;
            let disc = h * h - a * c;
            let got = s.hit(&r, window());
            // Leave out rays that graze the sphere, where rounding decides.
            if disc.abs() < 1e-6 {
                continue;
            }
            if disc < 0.0 {
                assert!(got.is_none());
            } else {
                let t = (h - disc.sqrt()) / a;
                let rec = got.unwrap();
                hits += 1;
                assert!((float_of(rec.t) - t).abs() < 1e-6);
                let p = (t * d.0, t * d.1, t * d.2);
                assert!((float_of(rec.point.x) - p.0).abs() < 1e-6);
                assert!((float_of(rec.point.y) - p.1).abs() < 1e-6);
                assert!((float_of(rec.point.z) - p.2).abs() < 1e-6);
                let n = (
                    (p.0 - center.0) / radius,
                    (p.1 - center.1) / radius,
                    (p.2 - center.2) / radius,
                );
                assert!(rec.is_front_face);
                assert!((float_of(rec.normal.x) - n.0).abs() < 1e-6);
                assert!((float_of(rec.normal.y) - n.1).abs() < 1e-6);
                assert!((float_of(rec.normal.z) - n.2).abs() < 1e-6);
            }
        }
    }
    assert!(hits > 100);
}

#[test]
fn a_radius_whose_square_rounds_to_zero_counts_as_zero() {
    // 2^-20, whose square 2^-40 is below the smallest number.
    let tiny = Sphere::new(v(0, 0, -1), Fixed::from_raw(4096), grey());
    let point_like = Sphere::new(v(0, 0, -1), Fixed::zero(), grey());
    assert_eq!(tiny.divisor_of_normals(), Fixed::zero());
    assert_eq!(point_like.divisor_of_normals(), Fixed::zero());
    for i in -3..=3 {
        for j in -3..=3 {
            let r = Ray::new(
                v(0, 0, 0),
                Vector3::new(Fixed::from_raw(i), Fixed::from_raw(j * 1000), Fixed::from_int(-1)),
            );
            assert_eq!(tiny.hit(&r, window()), point_like.hit(&r, window()));
        }
    }
    let h = tiny.hit(&Ray::new(v(0, 0, 0), v(0, 0, -1)), window()).unwrap();
    assert_eq!(h.t, Fixed::from_int(1));
    assert_eq!(h.normal, v(0, 0, 0));
    // From 2^-16 on the radius counts.
    let small = Sphere::new(v(0, 0, -1), Fixed::from_raw(1 << 16), grey());
    assert_eq!(small.divisor_of_normals(), Fixed::from_raw(1 << 16));
    let h = small.hit(&Ray::new(v(0, 0, 0), v(0, 0, -1)), window()).unwrap();
    assert_eq!(h.t, Fixed::from_raw(SCALE - (1 << 16)));
    assert_eq!(h.normal, v(0, 0, 1));
    assert_eq!(Sphere::new(v(0, 0, -1), Fixed::from_raw(65535), grey()).divisor_of_normals(), Fixed::zero());
}
