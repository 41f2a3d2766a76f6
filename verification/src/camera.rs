//! The camera: viewport geometry, the shading recursion and the sampling
//! loop.

use crate::fixed::{clamp, mul_raw, trunc_div, Fixed, MAX_RAW, SCALE};
use crate::hit::{each_occurs_in, lemma_order_irrelevant, no_ties, Hittable, HittableList};
use crate::interval::Interval;
use crate::material::Material;
use crate::ppm::{document, pixel_text, pixels_text, push_header, push_pixel, Rgb};
use crate::ray::Ray;
use crate::utility::{random_from_range, unit_range, unit_range_spec};
use crate::vector::{is_unit_sample, unit_vector, unit_vector_spec, Vector3};
use rand::rngs::StdRng;
use std::ops::Neg;
use vstd::prelude::*;

verus! {

/// Raw value of the smallest ray parameter that counts as a hit, about
/// `0.001`: a scattered ray must not hit the surface it leaves.
pub const SHADOW_BIAS_RAW: i64 = 4294967;

/// Raw value of the green part of the sky colour, about `0.7`.
pub const SKY_GREEN_RAW: i64 = 3006477107;

/// The window in which a ray is traced: from the shadow bias to the
/// largest number.
pub open spec fn trace_window() -> Interval {
    Interval { min: Fixed::of(SHADOW_BIAS_RAW as int), max: Fixed::of(MAX_RAW as int) }
}

/// The sky colour, which the gradient reaches straight up: `(0.5, 0.7, 1)`.
pub open spec fn sky_blue() -> Vector3 {
    Vector3 {
        x: Fixed::of(SCALE / 2),
        y: Fixed::of(SKY_GREEN_RAW as int),
        z: Fixed::of(SCALE as int),
    }
}

/// The weight of the sky colour for a ray: half of the vertical component
/// of its unit direction plus one, so that it runs from 0 (straight down)
/// to 1 (straight up).
pub open spec fn sky_weight(ray: Ray) -> Fixed {
    Fixed::of(SCALE / 2).mul_spec(
        unit_vector_spec(ray.direction).y.add_spec(Fixed::of(SCALE as int)),
    )
}

/// The colour of a ray that hits nothing: white and sky blue, blended by
/// the sky weight `a` as `(1 - a) * white + a * sky_blue`.
pub open spec fn background(ray: Ray) -> Vector3 {
    let a = sky_weight(ray);
    Vector3::splat(SCALE as int).mul_scalar_spec(Fixed::of(SCALE as int).sub_spec(a)).add_spec(
        sky_blue().mul_scalar_spec(a),
    )
}

/// The colour that `ray` gathers in a scene with `depth` bounces left, when
/// the directions that the materials draw are `samples`, one for each
/// bounce.
pub open spec fn trace<W: Hittable>(
    world: &W,
    ray: Ray,
    depth: nat,
    samples: Seq<Vector3>,
) -> Vector3
    decreases depth,
{
    if depth == 0 {
        Vector3::splat(0)
    } else {
        match world.hit_spec(ray, trace_window()) {
            Some(hit_record) => match hit_record.material.scattering(hit_record, samples[0]) {
                Some(scatter_result) => scatter_result.attenuated.mul_spec(
                    trace(
                        world,
                        scatter_result.scattered,
                        (depth - 1) as nat,
                        samples.drop_first(),
                    ),
                ),
                None => Vector3::splat(0),
            },
            None => background(ray),
        }
    }
}

/// True where `samples` holds one direction of length one, as
/// `random_unit_vector` may draw it, for each of `depth` bounces.
pub open spec fn bounce_samples(samples: Seq<Vector3>, depth: nat) -> bool {
    &&& samples.len() == depth
    &&& forall|i: int| 0 <= i < samples.len() ==> is_unit_sample(#[trigger] samples[i])
}

/// True where `color` is what `ray` gathers when the directions drawn are
/// `samples`.
pub open spec fn traces_to<W: Hittable>(
    world: &W,
    ray: Ray,
    depth: nat,
    samples: Seq<Vector3>,
    color: Vector3,
) -> bool {
    bounce_samples(samples, depth) && color == trace(world, ray, depth, samples)
}

/// True where `color` is what `ray` gathers for some directions that the
/// materials may draw.
pub open spec fn possible_color<W: Hittable>(
    world: &W,
    ray: Ray,
    depth: nat,
    color: Vector3,
) -> bool {
    exists|samples: Seq<Vector3>| #[trigger] traces_to(world, ray, depth, samples, color)
}

/// Two scenes that give the same hit for every ray gather the same colour
/// along every ray, for the same directions drawn.
pub proof fn lemma_same_hits_same_color<A: Hittable, B: Hittable>(
    a: &A,
    b: &B,
    ray: Ray,
    depth: nat,
    samples: Seq<Vector3>,
)
    requires
        forall|r: Ray| #[trigger] a.hit_spec(r, trace_window()) == b.hit_spec(r, trace_window()),
    ensures
        trace(a, ray, depth, samples) == trace(b, ray, depth, samples),
    decreases depth,
{
    if depth > 0 {
        match a.hit_spec(ray, trace_window()) {
            Some(hit_record) => match hit_record.material.scattering(hit_record, samples[0]) {
                Some(scatter_result) => {
                    lemma_same_hits_same_color(
                        a,
                        b,
                        scatter_result.scattered,
                        (depth - 1) as nat,
                        samples.drop_first(),
                    );
                },
                None => {},
            },
            None => {},
        }
    }
}

/// The order in which a scene holds its objects does not change the colour
/// that a ray gathers: two scenes that hold the same objects gather the
/// same colour for the same directions drawn, unless some ray hits two
/// objects at the same parameter in two different ways.
pub proof fn lemma_order_does_not_change_color<T: Hittable>(
    a: &HittableList<T>,
    b: &HittableList<T>,
    ray: Ray,
    depth: nat,
    samples: Seq<Vector3>,
)
    requires
        each_occurs_in(a.objects@, b.objects@),
        each_occurs_in(b.objects@, a.objects@),
        forall|r: Ray| #[trigger] no_ties(a.objects@, r, trace_window()),
    ensures
        trace(a, ray, depth, samples) == trace(b, ray, depth, samples),
{
    assert forall|r: Ray| #[trigger]
        a.hit_spec(r, trace_window()) == b.hit_spec(r, trace_window()) by {
        assert(no_ties(a.objects@, r, trace_window()));
        lemma_order_irrelevant(a.objects@, b.objects@, r, trace_window());
    }
    lemma_same_hits_same_color(a, b, ray, depth, samples);
}

/// The colour of a ray that hits nothing.
pub fn background_color(ray: &Ray) -> (r: Vector3)
    ensures
        r == background(*ray),
{
    let unit_direction = unit_vector(&ray.direction);
    let a = Fixed::half() * (unit_direction.y + Fixed::one());
    let sky = Vector3::new(Fixed::half(), Fixed::from_raw(SKY_GREEN_RAW), Fixed::one());
    (Fixed::one() - a) * Vector3::one() + a * sky
}

/// The colour that `ray` gathers in `world` with at most `max_depth`
/// bounces: black once no bounce is left.
pub fn ray_color<W: Hittable>(ray: Ray, max_depth: usize, world: &W, rng: &mut StdRng) -> (r:
    Vector3)
    ensures
        max_depth == 0 ==> r == Vector3::splat(0),
        world.hit_spec(ray, trace_window()) is None && max_depth > 0 ==> r == background(ray),
        possible_color(world, ray, max_depth as nat, r),
    decreases max_depth,
{
    let ghost spare = unit_vector_spec(crate::vector::fallback_direction());
    let ghost filler = Seq::new(max_depth as nat, |i: int| spare);
    proof {
        crate::vector::lemma_fallback_in_unit_ball();
        assert(is_unit_sample(spare));
        assert(bounce_samples(filler, max_depth as nat));
    }
    if max_depth == 0 {
        let r = Vector3::zero();
        assert(traces_to(world, ray, 0, filler, r));
        r
    } else {
        let window = Interval::new(Fixed::from_raw(SHADOW_BIAS_RAW), Fixed::max_value());
        if let Some(hit_record) = world.hit(&ray, window) {
            let material = hit_record.material;
            let scattered = material.scatter(hit_record, rng);
            let ghost first = choose|sample: Vector3|
                is_unit_sample(sample) && scattered == material.scatter_spec(hit_record, sample);
            if let Some(scatter_result) = scattered {
                let rest = ray_color(scatter_result.scattered, max_depth - 1, world, rng);
                let r = scatter_result.attenuated * rest;
                proof {
                    let tail = choose|samples: Seq<Vector3>|
                        #[trigger] traces_to(
                            world,
                            scatter_result.scattered,
                            (max_depth - 1) as nat,
                            samples,
                            rest,
                        );
                    let samples = seq![first] + tail;
                    assert(samples.drop_first() == tail);
                    assert(traces_to(world, ray, max_depth as nat, samples, r));
                }
                r
            } else {
                let r = Vector3::zero();
                proof {
                    let samples = filler.update(0, first);
                    assert(traces_to(world, ray, max_depth as nat, samples, r));
                }
                r
            }
        } else {
            let r = background_color(&ray);
            assert(traces_to(world, ray, max_depth as nat, filler, r));
            r
        }
    }
}

/// Nothing is gathered once no bounce is left.
proof fn lemma_trace_without_depth<W: Hittable>(world: &W)
    ensures
        forall|ray: Ray, samples: Seq<Vector3>| #[trigger]
            trace(world, ray, 0, samples) == Vector3::splat(0),
{
}

/// The components of the colour of the sky are results of sums, and so in
/// the symmetric range.
proof fn lemma_background_in_range(ray: Ray)
    ensures
        -MAX_RAW <= background(ray).x@ <= MAX_RAW,
        -MAX_RAW <= background(ray).y@ <= MAX_RAW,
        -MAX_RAW <= background(ray).z@ <= MAX_RAW,
{
}

/// The direction that a bounce uses where none was handed in for it: the
/// fallback direction, divided by its length.
pub open spec fn spare_sample() -> Vector3 {
    unit_vector_spec(crate::vector::fallback_direction())
}

/// The directions of `depth` bounces, taken from `samples` from the index
/// `from` on, and filled up with the spare direction where `samples` ends
/// before.
pub open spec fn samples_from(samples: Seq<Vector3>, from: int, depth: nat) -> Seq<Vector3> {
    Seq::new(
        depth,
        |i: int|
            if 0 <= from + i < samples.len() {
                samples[from + i]
            } else {
                spare_sample()
            },
    )
}

/// The colour that `ray` gathers in `world` with at most `max_depth`
/// bounces, when the directions that the materials draw are handed in:
/// `bounces` holds one for each bounce, from the first on.
pub fn ray_color_with<W: Hittable>(
    ray: Ray,
    max_depth: usize,
    world: &W,
    bounces: &Vec<Vector3>,
) -> (r: Vector3)
    ensures
        r == trace(world, ray, max_depth as nat, samples_from(bounces@, 0, max_depth as nat)),
        unit_samples(bounces@) ==> possible_color(world, ray, max_depth as nat, r),
{
    proof {
        if unit_samples(bounces@) {
            crate::vector::lemma_fallback_in_unit_ball();
            assert(is_unit_sample(spare_sample()));
            assert(traces_to(
                world,
                ray,
                max_depth as nat,
                samples_from(bounces@, 0, max_depth as nat),
                trace(world, ray, max_depth as nat, samples_from(bounces@, 0, max_depth as nat)),
            ));
        }
    }
    trace_from(ray, max_depth, world, bounces, 0)
}

/// True where every direction of the sequence is one that
/// `random_unit_vector` may draw.
pub open spec fn unit_samples(samples: Seq<Vector3>) -> bool {
    forall|i: int| 0 <= i < samples.len() ==> is_unit_sample(#[trigger] samples[i])
}

/// The colour that `ray` gathers when the directions of its bounces are
/// those of `bounces` from the index `used` on.
fn trace_from<W: Hittable>(
    ray: Ray,
    max_depth: usize,
    world: &W,
    bounces: &Vec<Vector3>,
    used: usize,
) -> (r: Vector3)
    requires
        used <= bounces.len(),
    ensures
        r == trace(
            world,
            ray,
            max_depth as nat,
            samples_from(bounces@, used as int, max_depth as nat),
        ),
    decreases max_depth,
{
    if max_depth == 0 {
        return Vector3::zero();
    }
    let window = Interval::new(Fixed::from_raw(SHADOW_BIAS_RAW), Fixed::max_value());
    match world.hit(&ray, window) {
        None => background_color(&ray),
        Some(hit_record) => {
            let (sample, next) = if used < bounces.len() {
                (bounces[used], used + 1)
            } else {
                (
                    unit_vector(&Vector3::new(Fixed::half(), Fixed::half(), Fixed::half())),
                    used,
                )
            };
            let ghost here = samples_from(bounces@, used as int, max_depth as nat);
            proof {
                assert(here[0] == sample);
                assert(here.drop_first() =~= samples_from(
                    bounces@,
                    next as int,
                    (max_depth - 1) as nat,
                ));
            }
            match hit_record.material.scatter_with(hit_record, sample) {
                None => Vector3::zero(),
                Some(scatter_result) => {
                    let rest = trace_from(
                        scatter_result.scattered,
                        max_depth - 1,
                        world,
                        bounces,
                        next,
                    );
                    scatter_result.attenuated * rest
                },
            }
        },
    }
}

/// Raw value of the largest intensity that is written, about `0.999`.
pub const INTENSITY_MAX_RAW: i64 = 4290672328;

/// Gamma correction of a linear colour component: its square root, and
/// zero for a component that is not positive.
pub fn linear_to_gamma(linear_component: Fixed) -> (r: Fixed)
    ensures
        r == linear_component.sqrt_spec(),
{
    if Fixed::zero().lt(linear_component) {
        linear_component.sqrt()
    } else {
        Fixed::zero()
    }
}

/// The range of the intensities that are written: from zero to about
/// `0.999`.
pub open spec fn intensity() -> Interval {
    Interval { min: Fixed::of(0), max: Fixed::of(INTENSITY_MAX_RAW as int) }
}

/// The byte of a linear colour component: the component is gamma
/// corrected, brought into the intensity range and multiplied by 256, and
/// the integer part is kept.
pub open spec fn channel_byte(linear_component: Fixed) -> u8 {
    trunc_div(
        mul_raw(256 * SCALE, intensity().clamp_spec(linear_component.sqrt_spec())@),
        SCALE as int,
    ) as u8
}

/// Full intensity is written as the byte 255, and none as the byte 0.
pub proof fn lemma_bytes_of_one_and_zero()
    ensures
        channel_byte(Fixed::of(SCALE as int)) == 255,
        channel_byte(Fixed::of(0)) == 0,
{
    let s = SCALE as int;
    assert(s * s == 0x1_0000_0000_0000_0000 && (s + 1) * (s + 1) > s * s) by (nonlinear_arith)
        requires
            s == 0x1_0000_0000,
    ;
    crate::fixed::lemma_isqrt_is(s * s, s);
    let top = INTENSITY_MAX_RAW as int;
    assert((256 * s) * top == 1098412115968 * s) by (nonlinear_arith)
        requires
            top == 4290672328,
    ;
    crate::fixed::lemma_trunc_div_cancels(1098412115968, s);
    crate::fixed::lemma_mul_by_zero(256 * s);
    assert(1098412115968int / 4294967296 == 255);
    assert(0int / 4294967296 == 0);
}

/// The blue of the sky is full whatever the ray: the gradient runs from
/// white to sky blue, and both are full in blue.
pub proof fn lemma_background_is_full_in_blue(ray: Ray)
    ensures
        background(ray).z@ == SCALE,
{
    let s = SCALE as int;
    let a = sky_weight(ray);
    let y = unit_vector_spec(ray.direction).y.add_spec(Fixed::of(s));
    // The weight is half of a number, and at most half the range.
    let m = crate::fixed::magnitude_of(y@);
    crate::fixed::lemma_product_of_magnitudes(s / 2, y@);
    assert(((s / 2) * m) / s <= m) by {
        assert((s / 2) * m <= m * s) by (nonlinear_arith)
            requires
                m >= 0,
                s == 0x1_0000_0000,
        ;
        assert(0 <= (s / 2) * m) by (nonlinear_arith)
            requires
                m >= 0,
                s == 0x1_0000_0000,
        ;
        vstd::arithmetic::div_mod::lemma_div_is_ordered((s / 2) * m, m * s, s);
        vstd::arithmetic::div_mod::lemma_div_multiples_vanish(m, s);
        assert(s * m == m * s) by (nonlinear_arith);
    }
    assert(((s / 2) * m) / s <= 0x4000_0000_0000_0000) by {
        assert((s / 2) * m <= 0x4000_0000_0000_0000 * s) by (nonlinear_arith)
            requires
                0 <= m <= 0x7fff_ffff_ffff_ffff,
                s == 0x1_0000_0000,
        ;
        assert(0 <= (s / 2) * m) by (nonlinear_arith)
            requires
                m >= 0,
                s == 0x1_0000_0000,
        ;
        vstd::arithmetic::div_mod::lemma_div_is_ordered(
            (s / 2) * m,
            0x4000_0000_0000_0000 * s,
            s,
        );
        vstd::arithmetic::div_mod::lemma_div_multiples_vanish(0x4000_0000_0000_0000, s);
        assert(s * 0x4000_0000_0000_0000 == 0x4000_0000_0000_0000 * s) by (nonlinear_arith);
    }
    assert(-0x4000_0000_0000_0000 <= a@ <= 0x4000_0000_0000_0000);
    crate::fixed::lemma_mul_by_one(s - a@);
    crate::fixed::lemma_mul_by_one(a@);
}

/// The pixel of a linear colour.
pub open spec fn color_bytes(color: Vector3) -> Rgb {
    Rgb { r: channel_byte(color.x), g: channel_byte(color.y), b: channel_byte(color.z) }
}

/// The byte of a linear colour component, from 0 to 255.
pub fn channel_to_byte(linear_component: Fixed) -> (r: u8)
    ensures
        r == channel_byte(linear_component),
{
    let bounds = Interval::new(Fixed::zero(), Fixed::from_raw(INTENSITY_MAX_RAW));
    let clamped = bounds.clamp(linear_to_gamma(linear_component));
    let scaled = Fixed::from_int(256) * clamped;
    proof {
        let c = clamped@;
        assert(0 <= c <= INTENSITY_MAX_RAW);
        assert((256 * SCALE) * c == (256 * c) * SCALE) by (nonlinear_arith);
        assert(((256 * c) * SCALE) / (SCALE as int) == 256 * c) by (nonlinear_arith)
            requires
                SCALE > 0,
        ;
        assert(scaled@ == 256 * c);
        assert(0 <= (256 * c) / (SCALE as int) <= 255) by (nonlinear_arith)
            requires
                0 <= c <= 4290672328,
                SCALE == 4294967296,
        ;
    }
    scaled.trunc() as u8
}

/// Appends the record of a linear colour to a PPM document.
pub fn write_color(out: &mut Vec<u8>, color: Vector3)
    ensures
        final(out)@ == old(out)@ + pixel_text(color_bytes(color)),
{
    let r_byte = channel_to_byte(color.x);
    let g_byte = channel_to_byte(color.y);
    let b_byte = channel_to_byte(color.z);
    push_pixel(out, Rgb { r: r_byte, g: g_byte, b: b_byte });
}

/// True of the offsets that `sample_square` may return: both coordinates
/// strictly between minus one half and one half, and no depth.
pub open spec fn in_sample_square(offset: Vector3) -> bool {
    &&& -(SCALE / 2) < offset.x@ < SCALE / 2
    &&& -(SCALE / 2) < offset.y@ < SCALE / 2
    &&& offset.z@ == 0
}

/// A random offset in the square of side one around the origin: two
/// numbers are drawn from the unit range, and the offset is what
/// `square_offset` makes of them.
pub fn sample_square(rng: &mut StdRng) -> (r: Vector3)
    ensures
        exists|x: Fixed, y: Fixed|
            in_unit_range(x) && in_unit_range(y) && r == #[trigger] square_offset(x, y),
        in_sample_square(r),
{
    let x = random_from_range(rng, unit_range());
    let y = random_from_range(rng, unit_range());
    offset_in_square(x, y)
}

/// True of the numbers that a draw from the unit range may give: from the
/// smallest positive number up to, and without, one.
pub open spec fn in_unit_range(x: Fixed) -> bool {
    unit_range_spec().start@ <= x@ < unit_range_spec().end@
}

/// The offset that two draws `x` and `y` give: each less one half, and no
/// depth.
pub open spec fn square_offset(x: Fixed, y: Fixed) -> Vector3 {
    Vector3 {
        x: x.sub_spec(Fixed::of(SCALE / 2)),
        y: y.sub_spec(Fixed::of(SCALE / 2)),
        z: Fixed::of(0),
    }
}

/// The offset that two draws `x` and `y` give. Draws from the unit range
/// give an offset of the sample square.
pub fn offset_in_square(x: Fixed, y: Fixed) -> (r: Vector3)
    ensures
        r == square_offset(x, y),
        in_unit_range(x) && in_unit_range(y) ==> in_sample_square(r),
{
    Vector3::new(x - Fixed::half(), y - Fixed::half(), Fixed::zero())
}

/// The camera: where it stands, how the image plane lies before it, and
/// how an image is sampled.
#[derive(Clone, Copy, Debug, PartialEq, Eq, Structural)]
pub struct Camera {
    pub aspect_ratio: Fixed,
    pub image_width: Fixed,
    pub image_height: Fixed,
    pub pixel_samples_scale: Fixed,
    pub max_depth: usize,
    pub samples_per_pixel: u8,
    pub center: Vector3,
    pub first_pixel_coordinate: Vector3,
    pub pixel_delta_u: Vector3,
    pub pixel_delta_v: Vector3,
}

/// What one sample of a pixel draws: the offset of its ray in the pixel,
/// and the directions of its bounces, from the first on.
pub struct SampleDraws {
    pub offset: Vector3,
    pub bounces: Vec<Vector3>,
}

/// The whole number `n` as a fixed-point number.
pub open spec fn whole(n: int) -> Fixed {
    Fixed::of(clamp(n * SCALE))
}

impl Camera {
    /// The number of pixel rows of an image of the given width and aspect
    /// ratio: the whole part of their quotient, and one where that is less
    /// than one.
    pub open spec fn rows_for(aspect_ratio: Fixed, image_width: u16) -> int {
        let quotient = whole(image_width as int).div_spec(aspect_ratio);
        if trunc_div(quotient@, SCALE as int) < 1 {
            1
        } else {
            trunc_div(quotient@, SCALE as int)
        }
    }

    /// The height of an image of the given width and aspect ratio, a whole
    /// number of pixels.
    pub open spec fn height_for(aspect_ratio: Fixed, image_width: u16) -> Fixed {
        whole(Self::rows_for(aspect_ratio, image_width))
    }

    /// The camera that `new` builds. The image is a whole number of pixels
    /// high. The camera stands at the origin and looks along the negative
    /// `z` axis at a viewport of height 2 at distance 1. The viewport is
    /// as wide as the image's proportions, width by whole height, ask, and
    /// its vertical axis points down, so that row 0 is the top of the image.
    /// The first pixel's centre lies half a pixel inside the upper left
    /// corner of the viewport.
    pub open spec fn new_spec(
        aspect_ratio: Fixed,
        image_width: u16,
        samples_per_pixel: u8,
        max_depth: usize,
    ) -> Camera {
        let width = whole(image_width as int);
        let height = Self::height_for(aspect_ratio, image_width);
        let viewport_width = whole(2).mul_spec(width.div_spec(height));
        let center = Vector3::splat(0);
        let viewport_u = Vector3 { x: viewport_width, y: whole(0), z: whole(0) };
        let viewport_v = Vector3 { x: whole(0), y: whole(-2), z: whole(0) };
        let pixel_delta_u = viewport_u.div_scalar_spec(width);
        let pixel_delta_v = viewport_v.div_scalar_spec(height);
        let viewport_upper_left = center.sub_spec(
            Vector3 { x: whole(0), y: whole(0), z: whole(1) },
        ).sub_spec(viewport_u.div_scalar_spec(whole(2))).sub_spec(
            viewport_v.div_scalar_spec(whole(2)),
        );
        Camera {
            aspect_ratio,
            image_width: width,
            image_height: height,
            pixel_samples_scale: whole(1).div_spec(whole(samples_per_pixel as int)),
            max_depth,
            samples_per_pixel,
            center,
            first_pixel_coordinate: viewport_upper_left.add_spec(
                pixel_delta_u.add_spec(pixel_delta_v).mul_scalar_spec(Fixed::of(SCALE / 2)),
            ),
            pixel_delta_u,
            pixel_delta_v,
        }
    }

    /// The number of pixel rows: the integer part of the image height.
    pub open spec fn rows(self) -> nat {
        if trunc_div(self.image_height@, SCALE as int) > 0 {
            trunc_div(self.image_height@, SCALE as int) as nat
        } else {
            0
        }
    }

    /// The number of pixels in a row: the integer part of the image width.
    pub open spec fn columns(self) -> nat {
        if trunc_div(self.image_width@, SCALE as int) > 0 {
            trunc_div(self.image_width@, SCALE as int) as nat
        } else {
            0
        }
    }

    /// The ray from the camera through the pixel in row `u` and column `v`,
    /// moved off the pixel's centre by `offset`.
    pub open spec fn ray_through(self, u: Fixed, v: Fixed, offset: Vector3) -> Ray {
        let pixel_sample = self.first_pixel_coordinate.add_spec(
            self.pixel_delta_u.mul_scalar_spec(v.add_spec(offset.x)),
        ).add_spec(self.pixel_delta_v.mul_scalar_spec(u.add_spec(offset.y)));
        Ray { origin: self.center, direction: pixel_sample.sub_spec(self.center) }
    }

    /// A camera for an image of the given width and proportions. The
    /// height is the whole part of the width divided by the aspect ratio,
    /// and at least one.
    pub fn new(
        aspect_ratio: Fixed,
        image_width: u16,
        samples_per_pixel: u8,
        max_depth: usize,
    ) -> (r: Camera)
        ensures
            r == Self::new_spec(aspect_ratio, image_width, samples_per_pixel, max_depth),
            r.rows() == Self::rows_for(aspect_ratio, image_width),
            r.rows() >= 1,
            r.image_height@ == r.rows() * SCALE,
            r.columns() == image_width,
            r.image_width@ == image_width * SCALE,
            samples_per_pixel == 1 ==> r.pixel_samples_scale@ == SCALE,
    {
        proof {
            crate::fixed::lemma_div_by_self(SCALE as int);
        }
        let ghost width = image_width;
        let image_width = Fixed::from_int(image_width as i32);
        let quotient = image_width / aspect_ratio;
        let whole_rows = quotient.trunc();
        proof {
            lemma_whole_part_bound(quotient@);
            assert(quotient@ <= MAX_RAW);
            assert(whole_rows < 0x8000_0000) by {
                assert(quotient@ / 4294967296 < 0x8000_0000);
            }
            crate::fixed::lemma_trunc_div_cancels(Self::rows_for(aspect_ratio, width), SCALE as int);
            crate::fixed::lemma_trunc_div_cancels(width as int, SCALE as int);
        }
        let image_height = if whole_rows < 1 {
            Fixed::one()
        } else {
            Fixed::from_int(whole_rows as i32)
        };

        let pixel_samples_scale = Fixed::one() / Fixed::from_int(samples_per_pixel as i32);

        let focal_length = Fixed::one();
        let viewport_height = Fixed::from_int(2);
        let viewport_width = viewport_height * (image_width / image_height);
        let center = Vector3::zero();

        let viewport_u = Vector3::new(viewport_width, Fixed::zero(), Fixed::zero());
        let viewport_v = Vector3::new(Fixed::zero(), viewport_height.neg(), Fixed::zero());

        let pixel_delta_u = viewport_u / image_width;
        let pixel_delta_v = viewport_v / image_height;

        let viewport_upper_left = center - Vector3::new(Fixed::zero(), Fixed::zero(), focal_length)
            - viewport_u / Fixed::from_int(2) - viewport_v / Fixed::from_int(2);
        let first_pixel_coordinate = viewport_upper_left + Fixed::half() * (pixel_delta_u
            + pixel_delta_v);

        Camera {
            aspect_ratio,
            image_width,
            image_height,
            pixel_samples_scale,
            max_depth,
            samples_per_pixel,
            center,
            first_pixel_coordinate,
            pixel_delta_u,
            pixel_delta_v,
        }
    }

    /// The ray from the camera through the pixel in row `u` and column `v`,
    /// moved off the pixel's centre by `offset`.
    pub fn ray_toward(&self, u: Fixed, v: Fixed, offset: Vector3) -> (r: Ray)
        ensures
            r == self.ray_through(u, v, offset),
    {
        let pixel_sample = self.first_pixel_coordinate + (v + offset.x) * self.pixel_delta_u + (u
            + offset.y) * self.pixel_delta_v;
        let ray_origin = self.center;
        let ray_direction = pixel_sample - ray_origin;
        Ray::new(ray_origin, ray_direction)
    }

    /// A ray from the camera through a random point of the pixel in row `u`
    /// and column `v`.
    pub fn get_ray(&self, u: Fixed, v: Fixed, rng: &mut StdRng) -> (r: Ray)
        ensures
            exists|offset: Vector3|
                in_sample_square(offset) && r == #[trigger] self.ray_through(u, v, offset),
    {
        let offset = sample_square(rng);
        self.ray_toward(u, v, offset)
    }

    /// The sum of the colours, taken from first to last.
    pub open spec fn sum_colors(colors: Seq<Vector3>) -> Vector3
        decreases colors.len(),
    {
        if colors.len() == 0 {
            Vector3::splat(0)
        } else {
            Self::sum_colors(colors.drop_last()).add_spec(colors.last())
        }
    }

    /// True where `color` is what one sample of the pixel in row `u` and
    /// column `v` may gather: the colour of a ray through some point of the
    /// pixel, for some directions that the materials may draw.
    pub open spec fn possible_sample<W: Hittable>(
        self,
        world: &W,
        u: Fixed,
        v: Fixed,
        color: Vector3,
    ) -> bool {
        exists|offset: Vector3|
            in_sample_square(offset) && possible_color(
                world,
                #[trigger] self.ray_through(u, v, offset),
                self.max_depth as nat,
                color,
            )
    }

    /// True where every colour of the sequence is a possible sample of the
    /// pixel in row `u` and column `v`.
    pub open spec fn samples_of<W: Hittable>(
        self,
        world: &W,
        u: Fixed,
        v: Fixed,
        colors: Seq<Vector3>,
    ) -> bool {
        forall|k: int|
            0 <= k < colors.len() ==> self.possible_sample(world, u, v, #[trigger] colors[k])
    }

    /// The colour of a pixel whose samples gathered `colors`: their sum
    /// times the sample scale.
    pub open spec fn pixel_from(self, colors: Seq<Vector3>) -> Vector3 {
        Self::sum_colors(colors).mul_scalar_spec(self.pixel_samples_scale)
    }

    /// True where `color` is what the pixel in row `u` and column `v` may
    /// come to: the scaled sum of as many possible samples as the camera
    /// takes for a pixel.
    #[verifier::opaque]
    pub open spec fn possible_pixel<W: Hittable>(
        self,
        world: &W,
        u: Fixed,
        v: Fixed,
        color: Vector3,
    ) -> bool {
        exists|colors: Seq<Vector3>|
            colors.len() == self.samples_per_pixel && #[trigger] self.samples_of(
                world,
                u,
                v,
                colors,
            ) && color == self.pixel_from(colors)
    }

    /// True where `pixels` holds possible colours for the first pixels of
    /// the image, row after row from the top, each row from the left.
    #[verifier::opaque]
    pub open spec fn possible_pixels<W: Hittable>(self, world: &W, pixels: Seq<Vector3>) -> bool {
        forall|i: int|
            0 <= i < pixels.len() ==> self.possible_pixel(
                world,
                whole(i / self.columns() as int),
                whole(i % self.columns() as int),
                #[trigger] pixels[i],
            )
    }

    /// True where `pixels` holds a possible colour for every pixel of the
    /// image, row after row from the top, each row from the left.
    pub open spec fn possible_image<W: Hittable>(self, world: &W, pixels: Seq<Vector3>) -> bool {
        pixels.len() == self.rows() * self.columns() && self.possible_pixels(world, pixels)
    }

    /// The bytes of the pixels with the given colours.
    pub open spec fn pixel_bytes(pixels: Seq<Vector3>) -> Seq<Rgb> {
        pixels.map_values(|c: Vector3| color_bytes(c))
    }

    /// The PPM document of an image with the given pixel colours.
    pub open spec fn image_text(self, pixels: Seq<Vector3>) -> Seq<u8> {
        document(self.columns(), self.rows(), Self::pixel_bytes(pixels))
    }

    /// One more pixel, in its place in the order of the image, keeps the
    /// pixels possible and adds its record to the text.
    pub proof fn lemma_one_more_pixel<W: Hittable>(
        self,
        world: &W,
        pixels: Seq<Vector3>,
        row: int,
        column: int,
        color: Vector3,
    )
        requires
            self.possible_pixels(world, pixels),
            0 <= row,
            0 <= column < self.columns(),
            pixels.len() == row * self.columns() + column,
            self.possible_pixel(world, whole(row), whole(column), color),
        ensures
            self.possible_pixels(world, pixels.push(color)),
            pixels_text(Self::pixel_bytes(pixels.push(color))) == pixels_text(
                Self::pixel_bytes(pixels),
            ) + pixel_text(color_bytes(color)),
    {
        reveal(Camera::possible_pixels);
        let longer = pixels.push(color);
        let columns = self.columns() as int;
        vstd::arithmetic::div_mod::lemma_fundamental_div_mod_converse(
            pixels.len() as int,
            columns,
            row,
            column,
        );
        assert forall|i: int| 0 <= i < longer.len() implies self.possible_pixel(
            world,
            whole(i / columns),
            whole(i % columns),
            #[trigger] longer[i],
        ) by {
            if i < pixels.len() {
                assert(longer[i] == pixels[i]);
            }
        }
        assert(Self::pixel_bytes(longer) =~= Self::pixel_bytes(pixels).push(color_bytes(color)));
        assert(Self::pixel_bytes(longer).drop_last() =~= Self::pixel_bytes(pixels));
    }

    /// With one sample for a pixel and one bounce, every pixel is black,
    /// where its ray hit something and the bounce was spent, or full in
    /// blue, where its ray went out to the sky: whatever the scene is and
    /// whatever is drawn.
    pub proof fn lemma_one_bounce_pixel<W: Hittable>(
        self,
        world: &W,
        u: Fixed,
        v: Fixed,
        color: Vector3,
    )
        requires
            self.samples_per_pixel == 1,
            self.max_depth == 1,
            self.pixel_samples_scale@ == SCALE,
            self.possible_pixel(world, u, v, color),
        ensures
            color_bytes(color) == (Rgb { r: 0, g: 0, b: 0 }) || color_bytes(color).b == 255,
    {
        reveal(Camera::possible_pixel);
        let colors = choose|colors: Seq<Vector3>|
            colors.len() == self.samples_per_pixel && #[trigger] self.samples_of(world, u, v, colors)
                && color == self.pixel_from(colors);
        let gathered = colors[0];
        assert(self.possible_sample(world, u, v, gathered));
        let offset = choose|offset: Vector3|
            in_sample_square(offset) && possible_color(
                world,
                #[trigger] self.ray_through(u, v, offset),
                self.max_depth as nat,
                gathered,
            );
        let ray = self.ray_through(u, v, offset);
        let samples = choose|samples: Seq<Vector3>| #[trigger]
            traces_to(world, ray, 1, samples, gathered);
        // One bounce: what was hit gives black, and the sky its colour.
        lemma_trace_without_depth(world);
        lemma_background_is_full_in_blue(ray);
        lemma_bytes_of_one_and_zero();
        assert(gathered == Vector3::splat(0) || gathered == background(ray)) by {
            match world.hit_spec(ray, trace_window()) {
                Some(hit_record) => {
                    match hit_record.material.scattering(hit_record, samples[0]) {
                        Some(scatter_result) => {
                            crate::fixed::lemma_mul_by_zero(scatter_result.attenuated.x@);
                            crate::fixed::lemma_mul_by_zero(scatter_result.attenuated.y@);
                            crate::fixed::lemma_mul_by_zero(scatter_result.attenuated.z@);
                            assert(trace(
                                world,
                                scatter_result.scattered,
                                0,
                                samples.drop_first(),
                            ) == Vector3::splat(0));
                        },
                        None => {},
                    }
                },
                None => {},
            }
        }
        // One sample: the pixel is what the sample gathered.
        assert(colors.drop_last() =~= Seq::<Vector3>::empty());
        assert(Self::sum_colors(colors.drop_last()) == Vector3::splat(0));
        assert(colors.last() == gathered);
        lemma_background_in_range(ray);
        crate::fixed::lemma_mul_by_one(gathered.x@);
        crate::fixed::lemma_mul_by_one(gathered.y@);
        crate::fixed::lemma_mul_by_one(gathered.z@);
        assert(color == gathered);
    }

    /// With one sample for a pixel and one bounce, every pixel of an image
    /// is black or full in blue.
    pub proof fn lemma_one_bounce_image<W: Hittable>(self, world: &W, pixels: Seq<Vector3>)
        requires
            self.samples_per_pixel == 1,
            self.max_depth == 1,
            self.pixel_samples_scale@ == SCALE,
            self.possible_image(world, pixels),
        ensures
            forall|i: int|
                0 <= i < pixels.len() ==> #[trigger] color_bytes(pixels[i]) == (Rgb {
                    r: 0,
                    g: 0,
                    b: 0,
                }) || color_bytes(pixels[i]).b == 255,
    {
        reveal(Camera::possible_pixels);
        assert forall|i: int| 0 <= i < pixels.len() implies #[trigger] color_bytes(pixels[i]) == (
        Rgb { r: 0, g: 0, b: 0 }) || color_bytes(pixels[i]).b == 255 by {
            self.lemma_one_bounce_pixel(
                world,
                whole(i / self.columns() as int),
                whole(i % self.columns() as int),
                pixels[i],
            );
        }
    }

    /// Two scenes that give the same hit for every ray can be rendered
    /// into the same images: what is a possible image of the one is a
    /// possible image of the other.
    pub proof fn lemma_same_hits_same_images<A: Hittable, B: Hittable>(
        self,
        a: &A,
        b: &B,
        pixels: Seq<Vector3>,
    )
        requires
            forall|r: Ray| #[trigger] a.hit_spec(r, trace_window()) == b.hit_spec(r, trace_window()),
            self.possible_image(a, pixels),
        ensures
            self.possible_image(b, pixels),
    {
        reveal(Camera::possible_pixels);
        assert forall|i: int| 0 <= i < pixels.len() implies self.possible_pixel(
            b,
            whole(i / self.columns() as int),
            whole(i % self.columns() as int),
            #[trigger] pixels[i],
        ) by {
            self.lemma_same_hits_same_pixel(
                a,
                b,
                whole(i / self.columns() as int),
                whole(i % self.columns() as int),
                pixels[i],
            );
        }
    }

    /// The order in which a scene holds its objects does not change the
    /// images that it can be rendered into, unless some ray hits two
    /// objects at the same parameter in two different ways: the document
    /// is fixed by the colours of the pixels, and those by what is drawn.
    pub proof fn lemma_order_does_not_change_images<T: Hittable>(
        self,
        a: &HittableList<T>,
        b: &HittableList<T>,
        pixels: Seq<Vector3>,
    )
        requires
            each_occurs_in(a.objects@, b.objects@),
            each_occurs_in(b.objects@, a.objects@),
            forall|r: Ray| #[trigger] no_ties(a.objects@, r, trace_window()),
        ensures
            self.possible_image(a, pixels) == self.possible_image(b, pixels),
    {
        assert forall|r: Ray| #[trigger]
            a.hit_spec(r, trace_window()) == b.hit_spec(r, trace_window()) by {
            assert(no_ties(a.objects@, r, trace_window()));
            lemma_order_irrelevant(a.objects@, b.objects@, r, trace_window());
        }
        if self.possible_image(a, pixels) {
            self.lemma_same_hits_same_images(a, b, pixels);
        }
        if self.possible_image(b, pixels) {
            self.lemma_same_hits_same_images(b, a, pixels);
        }
    }

    /// What is a possible pixel in one scene is a possible pixel in a scene
    /// that gives the same hits.
    proof fn lemma_same_hits_same_pixel<A: Hittable, B: Hittable>(
        self,
        a: &A,
        b: &B,
        u: Fixed,
        v: Fixed,
        color: Vector3,
    )
        requires
            forall|r: Ray| #[trigger] a.hit_spec(r, trace_window()) == b.hit_spec(r, trace_window()),
            self.possible_pixel(a, u, v, color),
        ensures
            self.possible_pixel(b, u, v, color),
    {
        reveal(Camera::possible_pixel);
        let colors = choose|colors: Seq<Vector3>|
            colors.len() == self.samples_per_pixel && #[trigger] self.samples_of(a, u, v, colors)
                && color == self.pixel_from(colors);
        assert forall|k: int| 0 <= k < colors.len() implies self.possible_sample(
            b,
            u,
            v,
            #[trigger] colors[k],
        ) by {
            let offset = choose|offset: Vector3|
                in_sample_square(offset) && possible_color(
                    a,
                    #[trigger] self.ray_through(u, v, offset),
                    self.max_depth as nat,
                    colors[k],
                );
            let ray = self.ray_through(u, v, offset);
            let samples = choose|samples: Seq<Vector3>| #[trigger]
                traces_to(a, ray, self.max_depth as nat, samples, colors[k]);
            lemma_same_hits_same_color(a, b, ray, self.max_depth as nat, samples);
            assert(traces_to(b, ray, self.max_depth as nat, samples, colors[k]));
        }
        assert(self.samples_of(b, u, v, colors));
    }

    /// The colour that one sample of the pixel in row `u` and column `v`
    /// gathers when it draws `draws`.
    pub open spec fn sample_drawn<W: Hittable>(
        self,
        world: &W,
        u: Fixed,
        v: Fixed,
        draws: SampleDraws,
    ) -> Vector3 {
        trace(
            world,
            self.ray_through(u, v, draws.offset),
            self.max_depth as nat,
            samples_from(draws.bounces@, 0, self.max_depth as nat),
        )
    }

    /// The colours that the samples of a pixel gather when they draw
    /// `draws`, one after the other.
    pub open spec fn samples_drawn<W: Hittable>(
        self,
        world: &W,
        u: Fixed,
        v: Fixed,
        draws: Seq<SampleDraws>,
    ) -> Seq<Vector3> {
        Seq::new(draws.len(), |k: int| self.sample_drawn(world, u, v, draws[k]))
    }

    /// The colour of the pixel in row `u` and column `v` when its samples
    /// draw `draws`.
    pub open spec fn pixel_drawn<W: Hittable>(
        self,
        world: &W,
        u: Fixed,
        v: Fixed,
        draws: Seq<SampleDraws>,
    ) -> Vector3 {
        self.pixel_from(self.samples_drawn(world, u, v, draws))
    }

    /// The draws of the pixel of index `i` in the order of the image: those
    /// that `draws` holds at `i`, and none where `draws` ends before.
    pub open spec fn draws_of(draws: Seq<Vec<SampleDraws>>, i: int) -> Seq<SampleDraws> {
        if 0 <= i < draws.len() {
            draws[i]@
        } else {
            Seq::empty()
        }
    }

    /// The colours of the pixels of the image, row after row from the top,
    /// each row from the left, when the pixels draw `draws`.
    pub open spec fn image_drawn<W: Hittable>(
        self,
        world: &W,
        draws: Seq<Vec<SampleDraws>>,
    ) -> Seq<Vector3> {
        Seq::new(
            self.rows() * self.columns(),
            |i: int|
                self.pixel_drawn(
                    world,
                    whole(i / self.columns() as int),
                    whole(i % self.columns() as int),
                    Self::draws_of(draws, i),
                ),
        )
    }

    /// The colour that one sample of the pixel in row `u` and column `v`
    /// gathers when it draws `draws`.
    pub fn sample_with<W: Hittable>(&self, u: Fixed, v: Fixed, world: &W, draws: &SampleDraws) -> (r:
        Vector3)
        ensures
            r == self.sample_drawn(world, u, v, *draws),
    {
        let ray = self.ray_toward(u, v, draws.offset);
        ray_color_with(ray, self.max_depth, world, &draws.bounces)
    }

    /// The colour of the pixel in row `u` and column `v` when its samples
    /// draw `draws`: there are as many samples as `draws` holds.
    pub fn pixel_with<W: Hittable>(
        &self,
        u: Fixed,
        v: Fixed,
        world: &W,
        draws: &Vec<SampleDraws>,
    ) -> (r: Vector3)
        ensures
            r == self.pixel_drawn(world, u, v, draws@),
    {
        let mut pixel_color = Vector3::zero();
        let mut k: usize = 0;
        while k < draws.len()
            invariant
                k <= draws.len(),
                pixel_color == Self::sum_colors(self.samples_drawn(world, u, v, draws@.take(k as int))),
            decreases draws.len() - k,
        {
            let color = self.sample_with(u, v, world, &draws[k]);
            proof {
                let before = self.samples_drawn(world, u, v, draws@.take(k as int));
                let after = self.samples_drawn(world, u, v, draws@.take(k + 1));
                assert(after.drop_last() =~= before);
                assert(after.last() == color);
            }
            pixel_color = pixel_color + color;
            k = k + 1;
        }
        proof {
            assert(draws@.take(k as int) =~= draws@);
        }
        self.pixel_samples_scale * pixel_color
    }

    /// True where `pixels` holds the first pixels of the image that the
    /// draws give.
    #[verifier::opaque]
    pub open spec fn drawn_so_far<W: Hittable>(
        self,
        world: &W,
        draws: Seq<Vec<SampleDraws>>,
        pixels: Seq<Vector3>,
    ) -> bool {
        let image = self.image_drawn(world, draws);
        pixels.len() <= image.len() && pixels == image.take(pixels.len() as int)
    }

    /// The pixel in its place in the order of the image makes the first
    /// pixels one more.
    pub proof fn lemma_one_more_drawn<W: Hittable>(
        self,
        world: &W,
        draws: Seq<Vec<SampleDraws>>,
        pixels: Seq<Vector3>,
        row: int,
        column: int,
    )
        requires
            self.drawn_so_far(world, draws, pixels),
            0 <= row < self.rows(),
            0 <= column < self.columns(),
            pixels.len() == row * self.columns() + column,
        ensures
            self.drawn_so_far(
                world,
                draws,
                pixels.push(
                    self.pixel_drawn(
                        world,
                        whole(row),
                        whole(column),
                        Self::draws_of(draws, pixels.len() as int),
                    ),
                ),
            ),
    {
        reveal(Camera::drawn_so_far);
        let image = self.image_drawn(world, draws);
        let n = pixels.len() as int;
        let columns = self.columns() as int;
        let rows = self.rows() as int;
        vstd::arithmetic::div_mod::lemma_fundamental_div_mod_converse(n, columns, row, column);
        assert(n < rows * columns) by (nonlinear_arith)
            requires
                n == row * columns + column,
                0 <= row < rows,
                0 <= column < columns,
        ;
        assert(pixels.push(image[n]) =~= image.take(n + 1));
    }

    /// Renders `world` into a PPM document when the samples of the pixels
    /// draw `draws`: `draws` holds the draws of one pixel after the other,
    /// row after row from the top, each row from the left. The document is
    /// a function of the camera, the scene and the draws.
    pub fn render_with<W: Hittable>(&self, world: &W, draws: &Vec<Vec<SampleDraws>>) -> (out: Vec<
        u8,
    >)
        ensures
            out@ == self.image_text(self.image_drawn(world, draws@)),
    {
        let rows = self.row_count();
        let columns = self.column_count();
        let no_draws: Vec<SampleDraws> = Vec::new();
        let mut out: Vec<u8> = Vec::new();
        push_header(&mut out, columns as u64, rows as u64);
        let ghost mut pixels: Seq<Vector3> = Seq::empty();
        proof {
            reveal(Camera::drawn_so_far);
            assert(Self::pixel_bytes(pixels) =~= Seq::<Rgb>::empty());
            assert(out@ =~= self.image_text(pixels));
            assert(pixels =~= self.image_drawn(world, draws@).take(0));
        }
        let mut index: usize = 0;
        let mut y: usize = 0;
        while y < rows
            invariant
                y <= rows,
                rows == self.rows(),
                columns == self.columns(),
                rows <= 0x8000_0000,
                columns <= 0x8000_0000,
                no_draws@.len() == 0,
                pixels.len() == y * columns,
                index == (if pixels.len() < draws.len() {
                    pixels.len()
                } else {
                    draws.len() as nat
                }),
                self.drawn_so_far(world, draws@, pixels),
                out@ == self.image_text(pixels),
            decreases rows - y,
        {
            let u = Fixed::from_int(y as i32);
            let mut x: usize = 0;
            while x < columns
                invariant
                    y < rows,
                    x <= columns,
                    rows == self.rows(),
                    columns == self.columns(),
                    rows <= 0x8000_0000,
                    columns <= 0x8000_0000,
                    u == whole(y as int),
                    no_draws@.len() == 0,
                    pixels.len() == y * columns + x,
                    index == (if pixels.len() < draws.len() {
                        pixels.len()
                    } else {
                        draws.len() as nat
                    }),
                    self.drawn_so_far(world, draws@, pixels),
                    out@ == self.image_text(pixels),
                decreases columns - x,
            {
                let v = Fixed::from_int(x as i32);
                let ghost here = Self::draws_of(draws@, pixels.len() as int);
                let color = if index < draws.len() {
                    let color = self.pixel_with(u, v, world, &draws[index]);
                    index = index + 1;
                    color
                } else {
                    proof {
                        assert(no_draws@ =~= here);
                    }
                    self.pixel_with(u, v, world, &no_draws)
                };
                write_color(&mut out, color);
                proof {
                    assert(color == self.pixel_drawn(world, u, v, here));
                    self.lemma_one_more_drawn(world, draws@, pixels, y as int, x as int);
                    Self::lemma_text_grows(pixels, color);
                    assert(out@ =~= self.image_text(pixels.push(color)));
                    pixels = pixels.push(color);
                }
                x = x + 1;
            }
            assert((y + 1) * columns == y * columns + columns) by (nonlinear_arith);
            y = y + 1;
        }
        proof {
            reveal(Camera::drawn_so_far);
            let image = self.image_drawn(world, draws@);
            assert(pixels.len() == image.len());
            assert(image.take(image.len() as int) =~= image);
        }
        out
    }

    /// True of the draws that `render` may make: for every pixel of the
    /// image as many samples as the camera takes, and for every sample an
    /// offset of the sample square and directions that `random_unit_vector`
    /// may draw.
    pub open spec fn possible_draws(self, draws: Seq<Vec<SampleDraws>>) -> bool {
        &&& draws.len() == self.rows() * self.columns()
        &&& forall|i: int, k: int|
            0 <= i < draws.len() && 0 <= k < draws[i]@.len() ==> in_sample_square(
                (#[trigger] draws[i]@[k]).offset,
            ) && unit_samples(draws[i]@[k].bounces@)
        &&& forall|i: int|
            0 <= i < draws.len() ==> (#[trigger] draws[i]@).len() == self.samples_per_pixel
    }

    /// What `render_with` makes of draws that `render` may make is an image
    /// that `render` may return.
    pub proof fn lemma_drawn_image_is_possible<W: Hittable>(
        self,
        world: &W,
        draws: Seq<Vec<SampleDraws>>,
    )
        requires
            self.possible_draws(draws),
        ensures
            self.possible_image(world, self.image_drawn(world, draws)),
    {
        reveal(Camera::possible_pixels);
        reveal(Camera::possible_pixel);
        let image = self.image_drawn(world, draws);
        crate::vector::lemma_fallback_in_unit_ball();
        assert(is_unit_sample(spare_sample()));
        assert forall|i: int| 0 <= i < image.len() implies self.possible_pixel(
            world,
            whole(i / self.columns() as int),
            whole(i % self.columns() as int),
            #[trigger] image[i],
        ) by {
            let u = whole(i / self.columns() as int);
            let v = whole(i % self.columns() as int);
            let pixel = draws[i]@;
            let colors = self.samples_drawn(world, u, v, pixel);
            assert forall|k: int| 0 <= k < colors.len() implies self.possible_sample(
                world,
                u,
                v,
                #[trigger] colors[k],
            ) by {
                let sample = draws[i]@[k];
                let ray = self.ray_through(u, v, sample.offset);
                let bounces = samples_from(sample.bounces@, 0, self.max_depth as nat);
                assert(unit_samples(sample.bounces@));
                assert(traces_to(world, ray, self.max_depth as nat, bounces, colors[k]));
            }
            assert(self.samples_of(world, u, v, colors));
            assert(image[i] == self.pixel_from(colors));
        }
    }

    /// One more pixel adds its record to the text.
    pub proof fn lemma_text_grows(pixels: Seq<Vector3>, color: Vector3)
        ensures
            pixels_text(Self::pixel_bytes(pixels.push(color))) == pixels_text(
                Self::pixel_bytes(pixels),
            ) + pixel_text(color_bytes(color)),
    {
        let longer = pixels.push(color);
        assert(Self::pixel_bytes(longer) =~= Self::pixel_bytes(pixels).push(color_bytes(color)));
        assert(Self::pixel_bytes(longer).drop_last() =~= Self::pixel_bytes(pixels));
    }

    /// The number of pixel rows.
    pub fn row_count(&self) -> (r: usize)
        ensures
            r == self.rows(),
            r <= 0x8000_0000,
    {
        let whole_part = self.image_height.trunc();
        proof {
            lemma_whole_part_bound(self.image_height@);
        }
        if whole_part > 0 {
            whole_part as usize
        } else {
            0
        }
    }

    /// The number of pixels in a row.
    pub fn column_count(&self) -> (r: usize)
        ensures
            r == self.columns(),
            r <= 0x8000_0000,
    {
        let whole_part = self.image_width.trunc();
        proof {
            lemma_whole_part_bound(self.image_width@);
        }
        if whole_part > 0 {
            whole_part as usize
        } else {
            0
        }
    }

    /// The colour of the pixel in row `u` and column `v`: the sum of the
    /// colours that its samples gather, times the sample scale.
    pub fn sample_pixel<W: Hittable>(&self, u: Fixed, v: Fixed, world: &W, rng: &mut StdRng) -> (r:
        Vector3)
        ensures
            self.possible_pixel(world, u, v, r),
    {
        let mut pixel_color = Vector3::zero();
        let ghost mut colors: Seq<Vector3> = Seq::empty();
        let mut sample: u8 = 0;
        while sample < self.samples_per_pixel
            invariant
                sample <= self.samples_per_pixel,
                colors.len() == sample,
                self.samples_of(world, u, v, colors),
                pixel_color == Self::sum_colors(colors),
            decreases self.samples_per_pixel - sample,
        {
            let ray = self.get_ray(u, v, rng);
            let color = ray_color(ray, self.max_depth, world, rng);
            pixel_color = pixel_color + color;
            proof {
                assert(self.possible_sample(world, u, v, color));
                let longer = colors.push(color);
                assert(longer.drop_last() == colors);
                assert forall|k: int| 0 <= k < longer.len() implies self.possible_sample(
                    world,
                    u,
                    v,
                    #[trigger] longer[k],
                ) by {
                    if k < colors.len() {
                        assert(longer[k] == colors[k]);
                    }
                }
                colors = longer;
            }
            sample = sample + 1;
        }
        proof {
            reveal(Camera::possible_pixel);
        }
        self.pixel_samples_scale * pixel_color
    }

    /// Renders `world` into a PPM document: the header, then the pixels row
    /// after row from the top, each row from the left.
    pub fn render<W: Hittable>(&self, world: &W, rng: &mut StdRng) -> (out: Vec<u8>)
        ensures
            exists|pixels: Seq<Vector3>|
                #[trigger] self.possible_image(world, pixels) && out@ == self.image_text(pixels),
    {
        let rows = self.row_count();
        let columns = self.column_count();
        let mut out: Vec<u8> = Vec::new();
        push_header(&mut out, columns as u64, rows as u64);
        let ghost mut pixels: Seq<Vector3> = Seq::empty();
        proof {
            reveal(Camera::possible_pixels);
            assert(Self::pixel_bytes(pixels) =~= Seq::<Rgb>::empty());
            assert(out@ =~= self.image_text(pixels));
        }
        let mut y: usize = 0;
        while y < rows
            invariant
                y <= rows,
                rows == self.rows(),
                columns == self.columns(),
                rows <= 0x8000_0000,
                columns <= 0x8000_0000,
                pixels.len() == y * columns,
                self.possible_pixels(world, pixels),
                out@ == self.image_text(pixels),
            decreases rows - y,
        {
            let u = Fixed::from_int(y as i32);
            let mut x: usize = 0;
            while x < columns
                invariant
                    y < rows,
                    x <= columns,
                    rows == self.rows(),
                    columns == self.columns(),
                    rows <= 0x8000_0000,
                    columns <= 0x8000_0000,
                    u == whole(y as int),
                    pixels.len() == y * columns + x,
                    self.possible_pixels(world, pixels),
                    out@ == self.image_text(pixels),
                decreases columns - x,
            {
                let v = Fixed::from_int(x as i32);
                let color = self.sample_pixel(u, v, world, rng);
                write_color(&mut out, color);
                proof {
                    self.lemma_one_more_pixel(world, pixels, y as int, x as int, color);
                    assert(out@ =~= self.image_text(pixels.push(color)));
                    pixels = pixels.push(color);
                }
                x = x + 1;
            }
            assert((y + 1) * columns == y * columns + columns) by (nonlinear_arith);
            y = y + 1;
        }
        proof {
            assert(self.possible_image(world, pixels));
        }
        out
    }
}

/// The integer part of a number is below `2^31` in magnitude.
proof fn lemma_whole_part_bound(raw: int)
    requires
        -0x8000_0000_0000_0000 <= raw <= 0x7fff_ffff_ffff_ffff,
    ensures
        -0x8000_0000 <= trunc_div(raw, SCALE as int) <= 0x8000_0000,
{
    if raw >= 0 {
        assert(raw / 4294967296 <= 0x8000_0000);
    } else {
        assert((-raw) / 4294967296 <= 0x8000_0000);
    }
}

} // verus!
