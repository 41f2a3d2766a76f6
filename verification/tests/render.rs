use path_tracer::camera::{offset_in_square, sample_square, Camera, SampleDraws};
use path_tracer::fixed::{Fixed, SCALE};
use path_tracer::hit::HittableList;
use path_tracer::material::{AnyMaterial, Lambertian, Metal};
use path_tracer::ray::Ray;
use path_tracer::sphere::Sphere;
use path_tracer::vector::Vector3;
use rand::rngs::StdRng;
use rand::SeedableRng;

fn v(x: i32, y: i32, z: i32) -> Vector3 {
    Vector3::new(Fixed::from_int(x), Fixed::from_int(y), Fixed::from_int(z))
}

fn float_of(x: Fixed) -> f64 {
    x.raw as f64 / SCALE as f64
}

fn close(a: Vector3, b: (f64, f64, f64)) -> bool {
    (float_of(a.x) - b.0).abs() < 1e-8
        && (float_of(a.y) - b.1).abs() < 1e-8
        && (float_of(a.z) - b.2).abs() < 1e-8
}

fn two_spheres() -> HittableList<Sphere> {
    let grey = Vector3::new(Fixed::ratio(1, 2), Fixed::ratio(1, 2), Fixed::ratio(1, 2));
    let mut world = HittableList::new();
    world.add(Sphere::new(
        Vector3::new(Fixed::zero(), Fixed::ratio(-201, 2), Fixed::from_int(-1)),
        Fixed::from_int(100),
        AnyMaterial::Lambertian(Lambertian::new(grey)),
    ));
    world.add(Sphere::new(
        v(0, 0, -1),
        Fixed::ratio(1, 2),
        AnyMaterial::Lambertian(Lambertian::new(grey)),
    ));
    world
}

/// Splits a document into its header and its records.
fn parse(doc: &[u8]) -> (String, Vec<[u8; 3]>) {
    let s = String::from_utf8(doc.to_vec()).unwrap();
    let (header, body) = s.split_at(s.find("\n255\n\n").unwrap() + 6);
    let mut pixels = Vec::new();
    let mut rest = body;
    while !rest.is_empty() {
        let end = rest.find("\n\n").unwrap();
        let parts: Vec<u8> = rest[..end].split(' ').map(|p| p.parse().unwrap()).collect();
        assert_eq!(parts.len(), 3);
        pixels.push([parts[0], parts[1], parts[2]]);
        rest = &rest[end + 2..];
    }
    (header.to_string(), pixels)
}

#[test]
fn camera_geometry_for_a_square_image() {
    let c = Camera::new(Fixed::one(), 4, 1, 1);
    assert_eq!(c.aspect_ratio, Fixed::one());
    assert_eq!(c.image_width, Fixed::from_int(4));
    assert_eq!(c.image_height, Fixed::from_int(4));
    assert_eq!(c.pixel_samples_scale, Fixed::one());
    assert_eq!(c.samples_per_pixel, 1);
    assert_eq!(c.max_depth, 1);
    assert_eq!(c.center, v(0, 0, 0));
    // The viewport is 2 by 2, so a pixel is 1/2 by 1/2.
    assert_eq!(c.pixel_delta_u, Vector3::new(Fixed::ratio(1, 2), Fixed::zero(), Fixed::zero()));
    assert_eq!(c.pixel_delta_v, Vector3::new(Fixed::zero(), Fixed::ratio(-1, 2), Fixed::zero()));
    // Upper left corner (-1, 1, -1), moved half a pixel inward.
    assert_eq!(
        c.first_pixel_coordinate,
        Vector3::new(Fixed::ratio(-3, 4), Fixed::ratio(3, 4), Fixed::from_int(-1))
    );
    assert_eq!(c.row_count(), 4);
    assert_eq!(c.column_count(), 4);
}

#[test]
fn camera_geometry_for_a_wide_image() {
    let c = Camera::new(Fixed::from_int(2), 8, 4, 50);
    assert_eq!(c.image_height, Fixed::from_int(4));
    assert_eq!(c.pixel_samples_scale, Fixed::ratio(1, 4));
    assert_eq!(c.max_depth, 50);
    assert_eq!(c.pixel_delta_u, Vector3::new(Fixed::ratio(1, 2), Fixed::zero(), Fixed::zero()));
    assert_eq!(c.pixel_delta_v, Vector3::new(Fixed::zero(), Fixed::ratio(-1, 2), Fixed::zero()));
    assert_eq!(
        c.first_pixel_coordinate,
        Vector3::new(Fixed::ratio(-7, 4), Fixed::ratio(3, 4), Fixed::from_int(-1))
    );
    assert_eq!(c.row_count(), 4);
    assert_eq!(c.column_count(), 8);
}

#[test]
fn camera_for_sixteen_to_nine() {
    let c = Camera::new(Fixed::ratio(16, 9), 400, 100, 50);
    assert_eq!(c.row_count(), 225);
    assert_eq!(c.column_count(), 400);
    assert_eq!(c.image_height, Fixed::from_int(225));
    assert!((float_of(c.pixel_samples_scale) - 0.01).abs() < 1e-9);
    let w = 2.0 * 400.0 / 225.0;
    assert!(close(c.pixel_delta_u, (w / 400.0, 0.0, 0.0)));
    assert!(close(c.pixel_delta_v, (0.0, -2.0 / 225.0, 0.0)));
    assert!(close(
        c.first_pixel_coordinate,
        (-w / 2.0 + 0.5 * w / 400.0, 1.0 - 0.5 * 2.0 / 225.0, -1.0)
    ));
}

#[test]
fn image_height_is_at_least_one() {
    let c = Camera::new(Fixed::from_int(100), 10, 1, 1);
    assert_eq!(c.image_height, Fixed::one());
    assert_eq!(c.row_count(), 1);
    let c = Camera::new(Fixed::one(), 0, 1, 1);
    assert_eq!(c.image_height, Fixed::one());
    assert_eq!(c.row_count(), 1);
    assert_eq!(c.column_count(), 0);
    let c = Camera::new(Fixed::from_int(-2), 10, 1, 1);
    assert_eq!(c.image_height, Fixed::one());
    let c = Camera::new(Fixed::from_int(10), 10, 1, 1);
    assert_eq!(c.image_height, Fixed::one());
}

#[test]
fn image_height_is_a_whole_number_of_pixels() {
    // 10 / 4 = 2.5
    let c = Camera::new(Fixed::from_int(4), 10, 1, 1);
    assert_eq!(c.image_height, Fixed::from_int(2));
    assert_eq!(c.row_count(), 2);
    // The viewport is 2 high and 2 * 10 / 2 wide, so a pixel is 1 by 1.
    assert_eq!(c.pixel_delta_u, v(1, 0, 0));
    assert_eq!(c.pixel_delta_v, v(0, -1, 0));
    assert_eq!(
        c.first_pixel_coordinate,
        Vector3::new(Fixed::ratio(-9, 2), Fixed::ratio(1, 2), Fixed::from_int(-1))
    );
    // 100 / (16 / 9) = 56.25
    let c = Camera::new(Fixed::ratio(16, 9), 100, 1, 1);
    assert_eq!(c.image_height, Fixed::from_int(56));
    assert_eq!(c.row_count(), 56);
    assert_eq!(c.pixel_delta_v, Vector3::new(Fixed::zero(), Fixed::ratio(-2, 56), Fixed::zero()));
}

#[test]
fn render_writes_width_times_height_triples() {
    let c = Camera::new(Fixed::ratio(16, 9), 100, 1, 1);
    let (header, pixels) = parse(&c.render(&two_spheres(), &mut StdRng::seed_from_u64(37)));
    assert_eq!(header, "P3\n100 56\n255\n\n");
    assert_eq!(pixels.len(), 5600);
}

#[test]
fn ray_toward_the_centre_of_a_pixel() {
    let c = Camera::new(Fixed::one(), 4, 1, 1);
    let none = v(0, 0, 0);
    assert_eq!(
        c.ray_toward(Fixed::zero(), Fixed::zero(), none),
        Ray::new(
            v(0, 0, 0),
            Vector3::new(Fixed::ratio(-3, 4), Fixed::ratio(3, 4), Fixed::from_int(-1))
        )
    );
    // Row 1, column 3.
    assert_eq!(
        c.ray_toward(Fixed::from_int(1), Fixed::from_int(3), none),
        Ray::new(
            v(0, 0, 0),
            Vector3::new(Fixed::ratio(3, 4), Fixed::ratio(1, 4), Fixed::from_int(-1))
        )
    );
    // Half a pixel to the right and a quarter of a pixel down.
    let offset = Vector3::new(Fixed::ratio(1, 2), Fixed::ratio(1, 4), Fixed::zero());
    assert_eq!(
        c.ray_toward(Fixed::from_int(1), Fixed::from_int(3), offset),
        Ray::new(
            v(0, 0, 0),
            Vector3::new(Fixed::from_int(1), Fixed::ratio(1, 8), Fixed::from_int(-1))
        )
    );
}

#[test]
fn get_ray_stays_in_its_pixel() {
    let c = Camera::new(Fixed::one(), 4, 1, 1);
    let mut rng = StdRng::seed_from_u64(31);
    for _ in 0..200 {
        let r = c.get_ray(Fixed::from_int(1), Fixed::from_int(3), &mut rng);
        assert_eq!(r.origin, v(0, 0, 0));
        assert_eq!(r.direction.z, Fixed::from_int(-1));
        assert!(Fixed::ratio(1, 2).le(r.direction.x) && r.direction.x.le(Fixed::one()));
        assert!(Fixed::zero().le(r.direction.y) && r.direction.y.le(Fixed::ratio(1, 2)));
    }
}

#[test]
fn offset_in_square_takes_one_half_from_each_draw() {
    let o = offset_in_square(Fixed::ratio(3, 4), Fixed::ratio(1, 8));
    assert_eq!(o, Vector3::new(Fixed::ratio(1, 4), Fixed::ratio(-3, 8), Fixed::zero()));
    // The ends of the unit range.
    let o = offset_in_square(Fixed::from_raw(1), Fixed::from_raw(SCALE - 1));
    assert_eq!(o.x.raw, 1 - SCALE / 2);
    assert_eq!(o.y.raw, SCALE / 2 - 1);
    assert_eq!(o.z.raw, 0);
    assert_eq!(offset_in_square(Fixed::half(), Fixed::half()), v(0, 0, 0));
}

#[test]
fn sample_square_stays_in_the_square() {
    let mut rng = StdRng::seed_from_u64(32);
    let mut seen_negative = false;
    let mut seen_positive = false;
    for _ in 0..500 {
        let o = sample_square(&mut rng);
        assert!(o.x.raw > -SCALE / 2 && o.x.raw < SCALE / 2);
        assert!(o.y.raw > -SCALE / 2 && o.y.raw < SCALE / 2);
        assert_eq!(o.z.raw, 0);
        seen_negative |= o.x.raw < 0;
        seen_positive |= o.x.raw > 0;
    }
    assert!(seen_negative && seen_positive);
}

#[test]
fn sample_pixel_averages_its_samples() {
    // Straight up there is only sky, whatever the offsets are: with a
    // camera that looks up, every sample is the same colour.
    let c = Camera {
        pixel_delta_u: v(0, 0, 0),
        pixel_delta_v: v(0, 0, 0),
        first_pixel_coordinate: v(0, 1, 0),
        ..Camera::new(Fixed::one(), 4, 4, 3)
    };
    let world: HittableList<Sphere> = HittableList::new();
    let mut rng = StdRng::seed_from_u64(33);
    let p = c.sample_pixel(Fixed::zero(), Fixed::zero(), &world, &mut rng);
    assert!(close(p, (0.5, 0.7, 1.0)));
}

#[test]
fn a_camera_without_samples_renders_black() {
    let c = Camera::new(Fixed::one(), 2, 0, 5);
    let (header, pixels) = parse(&c.render(&two_spheres(), &mut StdRng::seed_from_u64(34)));
    assert_eq!(header, "P3\n2 2\n255\n\n");
    assert_eq!(pixels, vec![[0, 0, 0]; 4]);
}

#[test]
fn render_of_the_empty_scene_is_the_sky() {
    let c = Camera::new(Fixed::one(), 2, 3, 5);
    let world: HittableList<Sphere> = HittableList::new();
    let (header, pixels) = parse(&c.render(&world, &mut StdRng::seed_from_u64(35)));
    assert_eq!(header, "P3\n2 2\n255\n\n");
    assert_eq!(pixels.len(), 4);
    // The upper row is bluer than the lower row, and blue is full
    // everywhere.
    for p in &pixels {
        assert_eq!(p[2], 255);
        assert!(p[0] < p[1] && p[1] < p[2]);
    }
    assert!(pixels[0][0] < pixels[2][0]);
    assert!(pixels[1][0] < pixels[3][0]);
}

#[test]
fn render_is_row_major_from_the_top_left() {
    // One sphere in the upper left quarter of the view, and one bounce
    // only: what hits the sphere is black.
    let mut world = HittableList::new();
    world.add(Sphere::new(
        Vector3::new(Fixed::ratio(-1, 2), Fixed::ratio(1, 2), Fixed::from_int(-1)),
        Fixed::ratio(2, 5),
        AnyMaterial::Metal(Metal::new(v(1, 1, 1))),
    ));
    let c = Camera::new(Fixed::one(), 4, 1, 1);
    let (header, pixels) = parse(&c.render(&world, &mut StdRng::seed_from_u64(36)));
    assert_eq!(header, "P3\n4 4\n255\n\n");
    assert_eq!(pixels.len(), 16);
    let black: Vec<usize> = (0..16).filter(|&i| pixels[i] == [0, 0, 0]).collect();
    assert!(!black.is_empty());
    // Rows 0 and 1, columns 0 and 1.
    for i in black {
        assert!([0, 1, 4, 5].contains(&i));
    }
}

#[test]
fn render_of_two_spheres_is_fixed_by_the_seed() {
    let c = Camera::new(Fixed::ratio(16, 9), 400, 1, 1);
    let world = two_spheres();
    let first = c.render(&world, &mut StdRng::seed_from_u64(42));
    let second = c.render(&world, &mut StdRng::seed_from_u64(42));
    assert_eq!(first, second);
    let (header, pixels) = parse(&first);
    assert_eq!(header, "P3\n400 225\n255\n\n");
    assert_eq!(pixels.len(), 400 * 225);
    // With one bounce, what hits a sphere is black: the middle of the image
    // and its bottom. The top is sky.
    assert_eq!(pixels[112 * 400 + 200], [0, 0, 0]);
    assert_eq!(pixels[224 * 400 + 200], [0, 0, 0]);
    assert_eq!(pixels[224 * 400], [0, 0, 0]);
    assert_eq!(pixels[200][2], 255);
    assert!(pixels[200][0] > 100 && pixels[200][0] < 255);
}

#[test]
fn one_bounce_gives_black_spheres_under_the_sky() {
    let c = Camera::new(Fixed::ratio(16, 9), 400, 1, 1);
    let world = two_spheres();
    for seed in [1, 2, 3] {
        let (_, pixels) = parse(&c.render(&world, &mut StdRng::seed_from_u64(seed)));
        assert_eq!(pixels.len(), 400 * 225);
        for p in &pixels {
            let sky = p[2] == 255 && 181 <= p[0] && p[0] <= p[1];
            assert!(*p == [0, 0, 0] || sky);
        }
        // The first row sees only sky, the last row only the ground.
        for x in 0..400 {
            assert_ne!(pixels[x], [0, 0, 0]);
            assert_eq!(pixels[224 * 400 + x], [0, 0, 0]);
        }
    }
}

#[test]
fn swapping_the_spheres_does_not_change_the_image() {
    let c = Camera::new(Fixed::ratio(16, 9), 80, 2, 4);
    let world = two_spheres();
    let mut swapped = HittableList::new();
    swapped.add(world.objects[1]);
    swapped.add(world.objects[0]);
    let one = c.render(&world, &mut StdRng::seed_from_u64(43));
    let other = c.render(&swapped, &mut StdRng::seed_from_u64(43));
    assert_eq!(one, other);
}

#[test]
fn another_seed_gives_another_image() {
    let c = Camera::new(Fixed::ratio(16, 9), 80, 2, 4);
    let world = two_spheres();
    let one = c.render(&world, &mut StdRng::seed_from_u64(1));
    let other = c.render(&world, &mut StdRng::seed_from_u64(2));
    assert_ne!(one, other);
    assert_eq!(parse(&one).1.len(), 80 * 45);
    assert_eq!(parse(&other).1.len(), 80 * 45);
}

#[test]
fn diffuse_spheres_are_lit() {
    let c = Camera::new(Fixed::ratio(16, 9), 40, 20, 10);
    let (_, pixels) = parse(&c.render(&two_spheres(), &mut StdRng::seed_from_u64(44)));
    assert_eq!(pixels.len(), 40 * 22);
    // The sphere in the middle is neither black nor as bright as the sky.
    let p = pixels[11 * 40 + 20];
    assert!(p[0] > 40 && p[0] < 230);
    // The ground in front is lit by the sky.
    let g = pixels[21 * 40 + 3];
    assert!(g[0] > 60);
}

fn centred(bounces: Vec<Vector3>) -> SampleDraws {
    SampleDraws { offset: v(0, 0, 0), bounces }
}

#[test]
fn the_draws_fix_the_image() {
    let c = Camera::new(Fixed::one(), 4, 2, 3);
    let world = two_spheres();
    let draws: Vec<Vec<SampleDraws>> = (0..16)
        .map(|i| {
            let shift = Vector3::new(Fixed::ratio(i - 8, 32), Fixed::ratio(8 - i, 32), Fixed::zero());
            vec![
                SampleDraws { offset: shift, bounces: vec![v(0, 1, 0), v(1, 0, 0), v(0, 0, 1)] },
                SampleDraws { offset: -shift, bounces: vec![v(0, 0, 1), v(0, 1, 0)] },
            ]
        })
        .collect();
    let first = c.render_with(&world, &draws);
    let second = c.render_with(&world, &draws);
    assert_eq!(first, second);
    let (header, pixels) = parse(&first);
    assert_eq!(header, "P3\n4 4\n255\n\n");
    assert_eq!(pixels.len(), 16);
    // The order of the spheres does not matter.
    let mut swapped = HittableList::new();
    swapped.add(world.objects[1]);
    swapped.add(world.objects[0]);
    assert_eq!(c.render_with(&swapped, &draws), first);
    // Every pixel is the pixel that its own draws give.
    for y in 0..4 {
        for x in 0..4 {
            let color = c.pixel_with(
                Fixed::from_int(y),
                Fixed::from_int(x),
                &world,
                &draws[(y * 4 + x) as usize],
            );
            let mut text = Vec::new();
            path_tracer::camera::write_color(&mut text, color);
            let (_, one) = parse(&[b"P3\n1 1\n255\n\n".to_vec(), text].concat());
            assert_eq!(one[0], pixels[(y * 4 + x) as usize]);
        }
    }
}

#[test]
fn a_pixel_is_the_scaled_sum_of_its_samples() {
    let c = Camera::new(Fixed::one(), 4, 2, 3);
    let world = two_spheres();
    let a = centred(vec![v(0, 1, 0)]);
    let b = SampleDraws {
        offset: Vector3::new(Fixed::ratio(1, 4), Fixed::ratio(-1, 4), Fixed::zero()),
        bounces: vec![v(1, 0, 0), v(0, 1, 0)],
    };
    let (u, w) = (Fixed::from_int(1), Fixed::from_int(2));
    let one = c.sample_with(u, w, &world, &a);
    let other = c.sample_with(u, w, &world, &b);
    assert_eq!(c.pixel_with(u, w, &world, &vec![a, b]), Fixed::half() * (one + other));
    assert_eq!(c.pixel_with(u, w, &world, &vec![]), v(0, 0, 0));
}

#[test]
fn a_sample_is_the_colour_of_its_ray() {
    let c = Camera::new(Fixed::one(), 4, 1, 3);
    let world = two_spheres();
    let offset = Vector3::new(Fixed::ratio(1, 4), Fixed::ratio(-1, 4), Fixed::zero());
    let draws = SampleDraws { offset, bounces: vec![v(0, 1, 0)] };
    let (u, w) = (Fixed::from_int(2), Fixed::from_int(1));
    assert_eq!(
        c.sample_with(u, w, &world, &draws),
        path_tracer::camera::ray_color_with(c.ray_toward(u, w, offset), 3, &world, &draws.bounces)
    );
}

#[test]
fn pixels_without_draws_are_black() {
    let c = Camera::new(Fixed::one(), 2, 1, 3);
    let world: HittableList<Sphere> = HittableList::new();
    let draws = vec![vec![centred(vec![])], vec![centred(vec![])]];
    let (header, pixels) = parse(&c.render_with(&world, &draws));
    assert_eq!(header, "P3\n2 2\n255\n\n");
    assert_eq!(pixels.len(), 4);
    assert_ne!(pixels[0], [0, 0, 0]);
    assert_ne!(pixels[1], [0, 0, 0]);
    assert_eq!(pixels[2], [0, 0, 0]);
    assert_eq!(pixels[3], [0, 0, 0]);
    // Draws beyond the last pixel are not used.
    let more: Vec<Vec<SampleDraws>> = (0..7).map(|_| vec![centred(vec![])]).collect();
    let (_, all) = parse(&c.render_with(&world, &more));
    assert_eq!(all.len(), 4);
    assert_eq!(&all[..2], &pixels[..2]);
    assert_eq!(all[2][2], 255);
}
