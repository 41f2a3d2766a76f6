//! Spheres.

use crate::fixed::{mul_raw, trunc_div, Fixed, SCALE};
use crate::hit::{HitRecord, Hittable};
use crate::interval::Interval;
use crate::material::AnyMaterial;
use crate::ray::Ray;
use crate::vector::{dot_spec, Vector3};
use crate::wide::product;
use vstd::prelude::*;

verus! {

/// A sphere with its material. A radius of zero or below is accepted; the
/// normals of its hits are then degenerate or turned inside out. A radius
/// below `2^-16` in magnitude, whose square rounds to zero, counts as
/// zero. A sphere is in reach of a ray wherever the two lie in the range
/// of the numbers, and however long the direction of the ray is.
#[derive(Clone, Copy, Debug, PartialEq, Eq, Structural)]
pub struct Sphere {
    pub center: Vector3,
    pub radius: Fixed,
    pub material: AnyMaterial,
}

/// The quadratic `a t^2 - 2 h t + c = 0` whose roots are the parameters at
/// which a ray meets a sphere. Its coefficients are wide numbers: raw
/// values in 128 bits, which hold what the number type cannot.
#[derive(Clone, Copy, Debug, PartialEq, Eq, Structural)]
pub struct Quadratic {
    pub a: i128,
    pub h: i128,
    pub c: i128,
}

impl Quadratic {
    /// The quadratic with coefficients of the number type.
    pub fn new(a: Fixed, h: Fixed, c: Fixed) -> (r: Quadratic)
        ensures
            r.a == a@,
            r.h == h@,
            r.c == c@,
    {
        Quadratic { a: a.raw as i128, h: h.raw as i128, c: c.raw as i128 }
    }

    /// The root that counts as the hit: the near root,
    /// `(h - sqrt(h^2 - a c)) / a`, where it is a number in range and lies
    /// strictly inside `ray_t`, else the far root,
    /// `(h + sqrt(h^2 - a c)) / a`, where that one does. There is none
    /// where the discriminant is negative or `a` is not positive.
    pub open spec fn root_in(self, ray_t: Interval) -> Option<Fixed> {
        crate::wide::root_in(self.a as int, self.h as int, self.c as int, ray_t)
    }

    /// Solves for the root that counts as the hit.
    pub fn solve(&self, ray_t: Interval) -> (r: Option<Fixed>)
        ensures
            r == self.root_in(ray_t),
    {
        crate::wide::solve(self.a, self.h, self.c, ray_t)
    }
}

/// The product of two raw values as a wide number: the exact product,
/// rounded toward zero to a multiple of `2^-32`.
pub open spec fn wide_product(a: int, b: int) -> int {
    trunc_div(a * b, SCALE as int)
}

/// True where the wide number is the raw value of a number that is in
/// range.
pub open spec fn in_range_raw(v: int) -> bool {
    -0x7fff_ffff_ffff_ffff < v < 0x7fff_ffff_ffff_ffff
}

/// The number with the wide raw value `v`, where it is in range.
fn narrow(v: i128) -> (r: Option<Fixed>)
    ensures
        r == (if in_range_raw(v as int) {
            Some(Fixed::of(v as int))
        } else {
            None
        }),
{
    if -0x7fff_ffff_ffff_ffff < v && v < 0x7fff_ffff_ffff_ffff {
        Some(Fixed { raw: v as i64 })
    } else {
        None
    }
}

/// The dot product of two vectors of raw values as a wide number.
pub open spec fn wide_dot(x1: int, y1: int, z1: int, x2: int, y2: int, z2: int) -> int {
    wide_product(x1, x2) + wide_product(y1, y2) + wide_product(z1, z2)
}

impl Sphere {
    /// The first coefficient of the quadratic for the meeting of `ray` and
    /// a sphere: `a = |direction|^2`.
    pub open spec fn coefficient_a(ray: Ray) -> int {
        let d = ray.direction;
        wide_dot(d.x@, d.y@, d.z@, d.x@, d.y@, d.z@)
    }

    /// The second coefficient: `h = direction . oc`, with `oc` the vector
    /// from the ray's origin to the centre.
    pub open spec fn coefficient_h(self, ray: Ray) -> int {
        let d = ray.direction;
        wide_dot(
            d.x@,
            d.y@,
            d.z@,
            self.center.x@ - ray.origin.x@,
            self.center.y@ - ray.origin.y@,
            self.center.z@ - ray.origin.z@,
        )
    }

    /// The third coefficient: `c = |oc|^2 - radius^2`.
    pub open spec fn coefficient_c(self, ray: Ray) -> int {
        let x = self.center.x@ - ray.origin.x@;
        let y = self.center.y@ - ray.origin.y@;
        let z = self.center.z@ - ray.origin.z@;
        wide_dot(x, y, z, x, y, z) - wide_product(self.radius@, self.radius@)
    }

    /// The parameter at which `ray` hits the sphere: the root of the
    /// quadratic that counts. The coefficients are carried as wide numbers,
    /// so that a sphere is in reach wherever it and the ray lie in the
    /// range of the numbers.
    pub open spec fn root_in(self, ray: Ray, ray_t: Interval) -> Option<Fixed> {
        crate::wide::root_in(
            Self::coefficient_a(ray),
            self.coefficient_h(ray),
            self.coefficient_c(ray),
            ray_t,
        )
    }

    /// True where the square of the radius rounds to zero: the radius is
    /// zero, or below `2^-16` in magnitude. Such a sphere is a point to the
    /// arithmetic, and is hit as the sphere of radius zero is.
    pub open spec fn is_degenerate(self) -> bool {
        self.radius.mul_spec(self.radius)@ == 0
    }

    /// The radius by which normals are divided: the radius, and zero for a
    /// degenerate sphere.
    pub open spec fn normal_divisor(self) -> Fixed {
        if self.is_degenerate() {
            Fixed::of(0)
        } else {
            self.radius
        }
    }

    /// The outward normal at a point of the surface:
    /// `(point - center) / radius`. For a degenerate sphere the division is
    /// one by zero: the normal has no length where the point is the centre,
    /// and is out of range elsewhere.
    pub open spec fn outward_normal(self, point: Vector3) -> Vector3 {
        point.sub_spec(self.center).div_scalar_spec(self.normal_divisor())
    }

    /// A degenerate sphere is hit as the sphere of radius zero at its place
    /// is.
    pub proof fn lemma_degenerate_as_radius_zero(self, ray: Ray, ray_t: Interval)
        requires
            self.is_degenerate(),
        ensures
            self.hit_spec(ray, ray_t) == (Sphere {
                center: self.center,
                radius: Fixed::of(0),
                material: self.material,
            }).hit_spec(ray, ray_t),
    {
        crate::fixed::lemma_mul_by_zero(0);
        let point_like = Sphere { center: self.center, radius: Fixed::of(0), material: self.material };
        assert(point_like.is_degenerate());
        assert(wide_product(self.radius@, self.radius@) == 0);
        assert(wide_product(0, 0) == 0);
        assert(self.coefficient_c(ray) == point_like.coefficient_c(ray));
    }

    /// The radius by which normals are divided.
    pub fn divisor_of_normals(&self) -> (r: Fixed)
        ensures
            r == self.normal_divisor(),
    {
        let radius_squared = self.radius * self.radius;
        if radius_squared.raw == 0 {
            Fixed::zero()
        } else {
            self.radius
        }
    }

    /// The point of `ray` at the parameter `t`, where it lies in the range
    /// of the numbers. The way there is taken in wide numbers, so that a
    /// step longer than the range is no hindrance.
    pub open spec fn point_at(ray: Ray, t: Fixed) -> Option<Vector3> {
        let x = ray.origin.x@ + wide_product(ray.direction.x@, t@);
        let y = ray.origin.y@ + wide_product(ray.direction.y@, t@);
        let z = ray.origin.z@ + wide_product(ray.direction.z@, t@);
        if in_range_raw(x) && in_range_raw(y) && in_range_raw(z) {
            Some(Vector3 { x: Fixed::of(x), y: Fixed::of(y), z: Fixed::of(z) })
        } else {
            None
        }
    }

    /// True where the vector from the centre to `point` lies in the range of
    /// the numbers.
    pub open spec fn offset_in_range(self, point: Vector3) -> bool {
        &&& in_range_raw(point.x@ - self.center.x@)
        &&& in_range_raw(point.y@ - self.center.y@)
        &&& in_range_raw(point.z@ - self.center.z@)
    }

    /// The record of the hit of `ray` at parameter `t`. There is none where
    /// the point, its offset from the centre or the normal is out of range.
    pub open spec fn record_at(self, ray: Ray, t: Fixed) -> Option<HitRecord> {
        match Self::point_at(ray, t) {
            Some(point) => if self.offset_in_range(point) && self.outward_normal(
                point,
            ).in_range() {
                Some(
                    HitRecord::new_spec(
                        point,
                        t,
                        self.outward_normal(point),
                        ray.direction,
                        self.material,
                    ),
                )
            } else {
                None
            },
            None => None,
        }
    }

    pub fn new(center: Vector3, radius: Fixed, material: AnyMaterial) -> (r: Sphere)
        ensures
            r == (Sphere { center, radius, material }),
    {
        Sphere { center, radius, material }
    }

    /// The quadratic for the meeting of `ray` and the sphere.
    pub fn quadratic_for(&self, ray: &Ray) -> (r: Quadratic)
        ensures
            r.a == Self::coefficient_a(*ray),
            r.h == self.coefficient_h(*ray),
            r.c == self.coefficient_c(*ray),
    {
        let dx = ray.direction.x.raw as i128;
        let dy = ray.direction.y.raw as i128;
        let dz = ray.direction.z.raw as i128;
        let x = self.center.x.raw as i128 - ray.origin.x.raw as i128;
        let y = self.center.y.raw as i128 - ray.origin.y.raw as i128;
        let z = self.center.z.raw as i128 - ray.origin.z.raw as i128;
        let radius = self.radius.raw as i128;
        let a = product(dx, dx) + product(dy, dy) + product(dz, dz);
        let h = product(dx, x) + product(dy, y) + product(dz, z);
        let c = product(x, x) + product(y, y) + product(z, z) - product(radius, radius);
        Quadratic { a, h, c }
    }

    /// The point of `ray` at the parameter `t`, where it lies in the range
    /// of the numbers.
    pub fn point_on(ray: &Ray, t: Fixed) -> (r: Option<Vector3>)
        ensures
            r == Self::point_at(*ray, t),
    {
        let t_wide = t.raw as i128;
        let x = narrow(ray.origin.x.raw as i128 + product(ray.direction.x.raw as i128, t_wide));
        let y = narrow(ray.origin.y.raw as i128 + product(ray.direction.y.raw as i128, t_wide));
        let z = narrow(ray.origin.z.raw as i128 + product(ray.direction.z.raw as i128, t_wide));
        match (x, y, z) {
            (Some(x), Some(y), Some(z)) => Some(Vector3::new(x, y, z)),
            _ => None,
        }
    }

    /// The vector from the centre to `point`, where it lies in the range of
    /// the numbers.
    pub fn offset_of(&self, point: &Vector3) -> (r: Option<Vector3>)
        ensures
            r == (if self.offset_in_range(*point) {
                Some(point.sub_spec(self.center))
            } else {
                None
            }),
    {
        let x = narrow(point.x.raw as i128 - self.center.x.raw as i128);
        let y = narrow(point.y.raw as i128 - self.center.y.raw as i128);
        let z = narrow(point.z.raw as i128 - self.center.z.raw as i128);
        match (x, y, z) {
            (Some(x), Some(y), Some(z)) => Some(Vector3::new(x, y, z)),
            _ => None,
        }
    }

    /// The normal of a hit never points along the ray that made it.
    pub proof fn lemma_normal_against_ray(self, ray: Ray, ray_t: Interval)
        ensures
            self.hit_spec(ray, ray_t) matches Some(h) ==> dot_spec(ray.direction, h.normal)@ <= 0,
    {
        match self.hit_spec(ray, ray_t) {
            Some(h) => {
                crate::vector::lemma_dot_neg(ray.direction, self.outward_normal(h.point));
            },
            None => {},
        }
    }
}

impl Hittable for Sphere {
    /// The hit at the root of the quadratic that lies strictly inside
    /// `ray_t`, the near root first. There is none where the discriminant
    /// is negative, the direction has no length, or neither root lies
    /// inside; and none where the point of the hit or its normal is out of
    /// range.
    open spec fn hit_spec(&self, ray: Ray, ray_t: Interval) -> Option<HitRecord> {
        match self.root_in(ray, ray_t) {
            Some(t) => self.record_at(ray, t),
            None => None,
        }
    }

    fn hit(&self, ray: &Ray, ray_t: Interval) -> (r: Option<HitRecord>) {
        let quadratic = self.quadratic_for(ray);
        match quadratic.solve(ray_t) {
            None => None,
            Some(root) => {
                let point = match Self::point_on(ray, root) {
                    Some(point) => point,
                    None => {
                        return None;
                    },
                };
                let offset = match self.offset_of(&point) {
                    Some(offset) => offset,
                    None => {
                        return None;
                    },
                };
                let outward_normal = offset / self.divisor_of_normals();
                if outward_normal.is_in_range() {
                    Some(
                        HitRecord::new(point, root, outward_normal, &ray.direction, self.material),
                    )
                } else {
                    None
                }
            },
        }
    }

    proof fn lemma_hit_inside(&self, ray: Ray, ray_t: Interval) {
    }

    proof fn lemma_hit_narrowed(&self, ray: Ray, ray_t: Interval, limit: Fixed) {
        crate::wide::lemma_root_narrowed(
            Self::coefficient_a(ray),
            self.coefficient_h(ray),
            self.coefficient_c(ray),
            ray_t,
            limit,
        );
    }
}

/// True of the six vectors of length one along the axes.
pub open spec fn is_axis(e: Vector3) -> bool {
    ||| (e.x@ == SCALE || e.x@ == -SCALE) && e.y@ == 0 && e.z@ == 0
    ||| e.x@ == 0 && (e.y@ == SCALE || e.y@ == -SCALE) && e.z@ == 0
    ||| e.x@ == 0 && e.y@ == 0 && (e.z@ == SCALE || e.z@ == -SCALE)
}

impl Sphere {
    /// The ray that starts at the distance `distance` from the origin, on
    /// the axis `e`, on the side that `e` points away from, and runs along
    /// `e`.
    pub open spec fn axis_ray(e: Vector3, distance: Fixed) -> Ray {
        Ray { origin: e.mul_scalar_spec(distance).neg_spec(), direction: e }
    }

    /// For a sphere at the origin and a ray along an axis from the distance
    /// `d`, the quadratic is `t^2 - 2 d t + (d^2 - r^2) = 0`: its
    /// discriminant is the squared radius, and its roots are `d - r` and
    /// `d + r`.
    proof fn lemma_axis_quadratic(self, e: Vector3, distance: Fixed)
        requires
            self.center == Vector3::splat(0),
            is_axis(e),
            0 <= distance@ <= 0x8000_0000_0000,
            0 < self.radius@ <= 0x8000_0000_0000,
            self.radius@ % 0x1_0000 == 0,
        ensures
            !self.is_degenerate(),
            ({
                let ray = Self::axis_ray(e, distance);
                let a = Self::coefficient_a(ray);
                let h = self.coefficient_h(ray);
                let c = self.coefficient_c(ray);
                &&& crate::wide::solvable(a, h, c)
                &&& crate::wide::near_root(a, h, c) == Some(distance.sub_spec(self.radius))
                &&& crate::wide::far_root(a, h, c) == Some(distance.add_spec(self.radius))
            }),
    {
        let ray = Self::axis_ray(e, distance);
        let r = self.radius@;
        let d = distance@;
        let k = r / 0x1_0000;
        let one = SCALE as int;
        let dd = mul_raw(d, d);
        crate::fixed::lemma_square_of_multiple(k);
        lemma_square_bounds(0, d);
        assert(k * k > 0) by (nonlinear_arith)
            requires
                k > 0,
        ;
        // The origin lies at `-d e`.
        crate::fixed::lemma_mul_by_zero(d);
        crate::fixed::lemma_mul_by_one(d);
        crate::fixed::lemma_mul_neg(one, d);
        let o = ray.origin;
        // The coefficients.
        Self::lemma_wide_products(one, d);
        Self::lemma_wide_products(d, d);
        Self::lemma_wide_products(one, one);
        Self::lemma_wide_products(r, r);
        Self::lemma_wide_products(0, 0);
        let a = Self::coefficient_a(ray);
        let h = self.coefficient_h(ray);
        let c = self.coefficient_c(ray);
        assert(a == one);
        assert(h == d);
        assert(c == dd - k * k);
        // Nothing needs reducing, and the discriminant is `k^2`.
        assert(crate::wide::reduced(h, c) == (h, c, 0nat));
        crate::fixed::lemma_trunc_div_cancels(c, one);
        assert(one * c == c * one) by (nonlinear_arith);
        assert(crate::wide::discriminant(a, h, c) == k * k);
        // The roots.
        assert(crate::wide::two_to(0) == 1);
        crate::fixed::lemma_trunc_div_cancels(d - r, one);
        crate::fixed::lemma_trunc_div_cancels(d + r, one);
        assert((d - r) * 1 == d - r && (d + r) * 1 == d + r);
    }

    /// The wide products of two numbers and of their negations, where one
    /// of them is zero, one or minus one, or both are the same number.
    proof fn lemma_wide_products(a: int, b: int)
        ensures
            wide_product(a, b) == wide_product(b, a),
            wide_product(-a, -b) == wide_product(a, b),
            wide_product(-a, b) == -wide_product(a, b),
            wide_product(a, -b) == -wide_product(a, b),
            wide_product(0, b) == 0,
            wide_product(SCALE as int, b) == b,
            -0x7fff_ffff_ffff_ffff <= wide_product(a, b) <= 0x7fff_ffff_ffff_ffff
                ==> wide_product(a, b) == mul_raw(a, b),
    {
        assert(a * b == b * a && (-a) * (-b) == a * b && (-a) * b == -(a * b) && a * (-b) == -(a
            * b) && 0 * b == 0) by (nonlinear_arith);
        crate::fixed::lemma_trunc_div_neg(a * b, SCALE as int);
        crate::fixed::lemma_trunc_div_cancels(b, SCALE as int);
        assert(SCALE * b == b * SCALE) by (nonlinear_arith);
    }

    /// For a sphere at the origin, the point at the distance of the radius
    /// from the origin along the axis `e`, on the side given by `ahead`, is
    /// in range, and the outward normal there is `e` or its negation.
    proof fn lemma_axis_normal(self, e: Vector3, ahead: bool)
        requires
            self.center == Vector3::splat(0),
            is_axis(e),
            0 < self.radius@ <= 0x8000_0000_0000,
            !self.is_degenerate(),
        ensures
            ({
                let along = e.mul_scalar_spec(self.radius);
                let point = if ahead {
                    along
                } else {
                    along.neg_spec()
                };
                &&& point.in_range()
                &&& self.offset_in_range(point)
                &&& self.outward_normal(point) == (if ahead {
                    e
                } else {
                    e.neg_spec()
                })
                &&& self.outward_normal(point).in_range()
                &&& dot_spec(e, e)@ == SCALE
                &&& dot_spec(e, e.neg_spec())@ == -SCALE
            }),
    {
        let r = self.radius@;
        let one = SCALE as int;
        crate::fixed::lemma_mul_by_zero(r);
        crate::fixed::lemma_mul_by_zero(0);
        crate::fixed::lemma_mul_by_zero(one);
        crate::fixed::lemma_mul_by_zero(-one);
        crate::fixed::lemma_mul_by_one(r);
        crate::fixed::lemma_mul_neg(one, r);
        crate::fixed::lemma_mul_by_one(one);
        crate::fixed::lemma_mul_by_one(-one);
        crate::fixed::lemma_mul_neg(one, one);
        crate::fixed::lemma_mul_neg(-one, one);
        crate::fixed::lemma_div_by_self(r);
        assert(crate::fixed::div_raw(0, r) == 0) by {
            assert(0int / r == 0) by (nonlinear_arith)
                requires
                    r > 0,
            ;
        }
    }

    /// A ray from the centre of a sphere at the origin, along an axis, hits
    /// the sphere where the ray parameter is the radius. The outward
    /// normal there runs along the ray, so the hit counts as one from
    /// inside and holds the normal turned round.
    ///
    /// This is stated for radii that are multiples of `2^-16` up to
    /// `2^15`: their squares and square roots are exact.
    pub proof fn lemma_axis_ray_from_center(self, e: Vector3, ray_t: Interval)
        requires
            self.center == Vector3::splat(0),
            is_axis(e),
            0 < self.radius@ <= 0x8000_0000_0000,
            self.radius@ % 0x1_0000 == 0,
            ray_t.min@ >= 0,
            ray_t.surrounds_spec(self.radius),
        ensures
            self.hit_spec(Ray { origin: self.center, direction: e }, ray_t) == Some(
                HitRecord {
                    point: e.mul_scalar_spec(self.radius),
                    normal: e.neg_spec(),
                    t: self.radius,
                    is_front_face: false,
                    material: self.material,
                },
            ),
    {
        let ray = Ray { origin: self.center, direction: e };
        let none = Fixed::of(0);
        self.lemma_axis_quadratic(e, none);
        self.lemma_axis_normal(e, true);
        crate::fixed::lemma_mul_by_zero(SCALE as int);
        crate::fixed::lemma_mul_by_zero(-(SCALE as int));
        crate::fixed::lemma_mul_by_zero(0);
        assert(Self::axis_ray(e, none) == ray);
        // The far root is the radius; the hit lies at `r e`, where the
        // outward normal is `e`.
        assert(none.sub_spec(self.radius)@ == -self.radius@);
        assert(none.add_spec(self.radius) == self.radius);
        assert(self.root_in(ray, ray_t) == Some(self.radius));
        let along = e.mul_scalar_spec(self.radius);
        Self::lemma_wide_products(SCALE as int, self.radius@);
        Self::lemma_wide_products(0, self.radius@);
        crate::fixed::lemma_mul_by_one(self.radius@);
        crate::fixed::lemma_mul_neg(SCALE as int, self.radius@);
        crate::fixed::lemma_mul_by_zero(self.radius@);
        assert(Self::point_at(ray, self.radius) == Some(along));
    }

    /// A ray that starts outside a sphere at the origin, on an axis, and
    /// runs along that axis toward the centre hits the sphere where the ray
    /// parameter is the distance to the surface: the distance of its origin
    /// from the centre less the radius. The normal there runs against the
    /// ray, and the hit counts as one from outside.
    ///
    /// This is stated for radii that are multiples of `2^-16`, and for
    /// distances up to `2^15`.
    pub proof fn lemma_axis_ray_from_outside(
        self,
        e: Vector3,
        distance: Fixed,
        ray_t: Interval,
    )
        requires
            self.center == Vector3::splat(0),
            is_axis(e),
            0 < self.radius@ < distance@ <= 0x8000_0000_0000,
            self.radius@ % 0x1_0000 == 0,
            ray_t.surrounds_spec(distance.sub_spec(self.radius)),
        ensures
            self.hit_spec(
                Ray { origin: e.mul_scalar_spec(distance).neg_spec(), direction: e },
                ray_t,
            ) == Some(
                HitRecord {
                    point: e.mul_scalar_spec(self.radius).neg_spec(),
                    normal: e.neg_spec(),
                    t: distance.sub_spec(self.radius),
                    is_front_face: true,
                    material: self.material,
                },
            ),
    {
        let ray = Self::axis_ray(e, distance);
        self.lemma_axis_quadratic(e, distance);
        self.lemma_axis_normal(e, false);
        // The near root is the distance less the radius; the hit lies at
        // `-r e`, where the outward normal is `-e`.
        let t = distance.sub_spec(self.radius);
        assert(self.root_in(ray, ray_t) == Some(t));
        Self::lemma_axis_point(e, distance, self.radius);
    }

    /// The point of an axis ray from the distance `d` at the parameter
    /// `d - r` lies at `-r e`.
    proof fn lemma_axis_point(e: Vector3, distance: Fixed, radius: Fixed)
        requires
            is_axis(e),
            0 < radius@ < distance@ <= 0x8000_0000_0000,
        ensures
            Self::point_at(Self::axis_ray(e, distance), distance.sub_spec(radius)) == Some(
                e.mul_scalar_spec(radius).neg_spec(),
            ),
    {
        let r = radius@;
        let d = distance@;
        let one = SCALE as int;
        crate::fixed::lemma_mul_by_zero(d);
        crate::fixed::lemma_mul_by_zero(r);
        crate::fixed::lemma_mul_by_one(d);
        crate::fixed::lemma_mul_neg(one, d);
        crate::fixed::lemma_mul_by_one(r);
        crate::fixed::lemma_mul_neg(one, r);
        Self::lemma_wide_products(one, d - r);
        Self::lemma_wide_products(0, d - r);
    }

    /// A ray along an axis that passes the centre of a sphere at more than
    /// the radius does not hit it, whatever the search window. This is
    /// stated where the coefficients of the quadratic fit the number type,
    /// so that none is rounded further.
    pub proof fn lemma_axis_ray_misses(self, ray: Ray, ray_t: Interval)
        requires
            is_axis(ray.direction),
            crate::wide::fits(self.coefficient_h(ray)),
            crate::wide::fits(self.coefficient_c(ray)),
            wide_distance_squared_from_axis(
                self.center.x@ - ray.origin.x@,
                self.center.y@ - ray.origin.y@,
                self.center.z@ - ray.origin.z@,
                ray.direction,
            ) > wide_product(self.radius@, self.radius@),
        ensures
            self.hit_spec(ray, ray_t) is None,
    {
        let one = SCALE as int;
        let x = self.center.x@ - ray.origin.x@;
        let y = self.center.y@ - ray.origin.y@;
        let z = self.center.z@ - ray.origin.z@;
        Self::lemma_wide_products(one, one);
        Self::lemma_wide_products(one, x);
        Self::lemma_wide_products(one, y);
        Self::lemma_wide_products(one, z);
        Self::lemma_wide_products(x, x);
        Self::lemma_wide_products(y, y);
        Self::lemma_wide_products(z, z);
        Self::lemma_wide_products(0, 0);
        let a = Self::coefficient_a(ray);
        let h = self.coefficient_h(ray);
        let c = self.coefficient_c(ray);
        assert(a == one);
        assert(crate::wide::reduced(h, c) == (h, c, 0nat));
        crate::fixed::lemma_trunc_div_cancels(c, one);
        assert(one * c == c * one) by (nonlinear_arith);
        // With `h` the component of `oc` along the axis, the discriminant
        // `h^2 - c` is the squared radius less the squared distance from
        // the axis.
        assert(crate::wide::discriminant(a, h, c) == wide_product(self.radius@, self.radius@)
            - wide_distance_squared_from_axis(x, y, z, ray.direction));
    }
}

/// The square of the distance of the point `(x, y, z)` from the line through
/// the origin along the axis `e`, as a wide number: the sum of the squares
/// of the two components across the axis. For the vector from a ray's
/// origin to a centre, it is the squared distance at which the ray passes
/// the centre.
pub open spec fn wide_distance_squared_from_axis(x: int, y: int, z: int, e: Vector3) -> int {
    if e.x@ != 0 {
        wide_product(y, y) + wide_product(z, z)
    } else if e.y@ != 0 {
        wide_product(x, x) + wide_product(z, z)
    } else {
        wide_product(x, x) + wide_product(y, y)
    }
}

/// The squares of two numbers up to `2^15` are in range and in the order of
/// the numbers.
proof fn lemma_square_bounds(r: int, d: int)
    requires
        0 <= r <= d <= 0x8000_0000_0000,
    ensures
        0 <= mul_raw(r, r) <= mul_raw(d, d) <= 0x4000_0000_0000_0000,
{
    let top: int = 0x4000_0000_0000_0000_0000_0000;
    assert(0 <= r * r <= d * d <= top) by (nonlinear_arith)
        requires
            0 <= r <= d <= 0x8000_0000_0000,
            top == 0x4000_0000_0000_0000_0000_0000,
    ;
    vstd::arithmetic::div_mod::lemma_div_is_ordered(r * r, d * d, SCALE as int);
    vstd::arithmetic::div_mod::lemma_div_is_ordered(d * d, top, SCALE as int);
    vstd::arithmetic::div_mod::lemma_div_pos_is_pos(r * r, SCALE as int);
    assert(top / 0x1_0000_0000 == 0x4000_0000_0000_0000);
}

} // verus!
