//! Surface materials: how a ray that hits a surface goes on.

use crate::fixed::SCALE;
use crate::hit::HitRecord;
use crate::unit::UNIT_TOLERANCE_RAW;
use crate::ray::Ray;
use crate::vector::{
    dot_spec, is_unit_sample, random_unit_vector, reflect, reflect_spec, unit_vector_spec, Vector3,
};
use rand::rngs::StdRng;
use vstd::prelude::*;

verus! {

/// The ray that leaves a surface and the colour it is multiplied by.
#[derive(Clone, Copy, Debug, PartialEq, Eq, Structural)]
pub struct ScatterResult {
    pub scattered: Ray,
    pub attenuated: Vector3,
}

impl ScatterResult {
    pub fn new(scattered: Ray, attenuated: Vector3) -> (r: ScatterResult)
        ensures
            r == (ScatterResult { scattered, attenuated }),
    {
        ScatterResult { scattered, attenuated }
    }
}

/// A material decides how a ray goes on from a hit. `None` ends the path
/// with no light.
pub trait Material {
    /// What `scatter` returns when the direction it draws is `sample`.
    spec fn scatter_spec(&self, hit_record: HitRecord, sample: Vector3) -> Option<ScatterResult>;

    /// Scatters the ray that made `hit_record`. A material draws at most one
    /// direction of length one, and the result is the one that
    /// `scatter_spec` gives for that direction.
    fn scatter(&self, hit_record: HitRecord, rng: &mut StdRng) -> (r: Option<ScatterResult>)
        ensures
            exists|sample: Vector3|
                is_unit_sample(sample) && r == self.scatter_spec(hit_record, sample),
    ;
}

/// A diffuse surface.
#[derive(Clone, Copy, Debug, PartialEq, Eq, Structural)]
pub struct Lambertian {
    pub albedo: Vector3,
}

impl Lambertian {
    /// The direction in which a diffuse surface with the given normal sends
    /// a ray on: the normal plus the sample, or the normal alone where that
    /// sum is nearly zero.
    pub open spec fn scatter_direction(normal: Vector3, sample: Vector3) -> Vector3 {
        if normal.add_spec(sample).is_near_zero_spec() {
            normal
        } else {
            normal.add_spec(sample)
        }
    }

    /// What the surface makes of a hit when the direction drawn is
    /// `sample`: a ray from the point of the hit along the scatter
    /// direction, coloured by the albedo.
    pub open spec fn scattering(self, hit_record: HitRecord, sample: Vector3) -> ScatterResult {
        ScatterResult {
            scattered: Ray {
                origin: hit_record.point,
                direction: Self::scatter_direction(hit_record.normal, sample),
            },
            attenuated: self.albedo,
        }
    }

    /// The scatter direction lies within a distance of about one of the
    /// normal: it is the normal itself, or the normal plus a sample whose
    /// squared length lies within the tolerance of one. This is stated
    /// for normals with components up to two in magnitude.
    pub proof fn lemma_scatter_direction_near_normal(normal: Vector3, sample: Vector3)
        requires
            is_unit_sample(sample),
            -2 * SCALE <= normal.x@ <= 2 * SCALE,
            -2 * SCALE <= normal.y@ <= 2 * SCALE,
            -2 * SCALE <= normal.z@ <= 2 * SCALE,
        ensures
            ({
                let offset = Self::scatter_direction(normal, sample).sub_spec(normal);
                ||| offset == Vector3::splat(0)
                ||| offset == sample && SCALE - UNIT_TOLERANCE_RAW
                    <= offset.length_squared_spec()@ <= SCALE + UNIT_TOLERANCE_RAW
            }),
    {
        crate::vector::lemma_unit_sample_length(sample);
    }

    /// The scatter direction never points into the surface: for a normal
    /// whose squared length is at least one less the tolerance, its dot
    /// product with the normal is not below minus the tolerance, but for a
    /// few raw units. This is stated for normals with components up to two
    /// in magnitude.
    pub proof fn lemma_scatter_direction_not_inward(normal: Vector3, sample: Vector3)
        requires
            is_unit_sample(sample),
            -2 * SCALE <= normal.x@ <= 2 * SCALE,
            -2 * SCALE <= normal.y@ <= 2 * SCALE,
            -2 * SCALE <= normal.z@ <= 2 * SCALE,
            normal.length_squared_spec()@ >= SCALE - UNIT_TOLERANCE_RAW,
        ensures
            dot_spec(Self::scatter_direction(normal, sample), normal)@ >= -(UNIT_TOLERANCE_RAW
                + 5),
    {
        crate::vector::lemma_unit_sample_length(sample);
        crate::unit::lemma_squares_in_range(normal);
        crate::unit::lemma_squares_in_range(sample);
        crate::unit::lemma_dot_of_sum_from_below(
            normal.x@,
            normal.y@,
            normal.z@,
            sample.x@,
            sample.y@,
            sample.z@,
        );
        let sum = normal.add_spec(sample);
        crate::unit::lemma_small_product(sum.x@, normal.x@);
        crate::unit::lemma_small_product(sum.y@, normal.y@);
        crate::unit::lemma_small_product(sum.z@, normal.z@);
        assert(sum.x@ == normal.x@ + sample.x@);
        assert(sum.y@ == normal.y@ + sample.y@);
        assert(sum.z@ == normal.z@ + sample.z@);
    }

    pub fn new(albedo: Vector3) -> (r: Lambertian)
        ensures
            r.albedo == albedo,
    {
        Lambertian { albedo }
    }

    /// Scatters toward the normal plus `sample`, the direction of length one
    /// that was drawn.
    pub fn scatter_with(&self, hit_record: HitRecord, sample: Vector3) -> (r: ScatterResult)
        ensures
            r == self.scattering(hit_record, sample),
    {
        let mut scatter_direction = hit_record.normal + sample;
        if scatter_direction.is_near_zero() {
            scatter_direction = hit_record.normal;
        }
        let scattered_ray = Ray::new(hit_record.point, scatter_direction);
        ScatterResult::new(scattered_ray, self.albedo)
    }
}

impl Material for Lambertian {
    open spec fn scatter_spec(&self, hit_record: HitRecord, sample: Vector3) -> Option<
        ScatterResult,
    > {
        Some(self.scattering(hit_record, sample))
    }

    fn scatter(&self, hit_record: HitRecord, rng: &mut StdRng) -> (r: Option<ScatterResult>) {
        let sample = random_unit_vector(rng);
        assert(is_unit_sample(sample));
        Some(self.scatter_with(hit_record, sample))
    }
}

/// A reflecting surface.
#[derive(Clone, Copy, Debug, PartialEq, Eq, Structural)]
pub struct Metal {
    pub albedo: Vector3,
}

impl Metal {
    /// What the surface makes of a hit: a ray from the point of the hit
    /// along the hit's normal mirrored about the albedo, coloured by the
    /// albedo.
    pub open spec fn scattering(self, hit_record: HitRecord) -> ScatterResult {
        ScatterResult {
            scattered: Ray {
                origin: hit_record.point,
                direction: reflect_spec(hit_record.normal, self.albedo),
            },
            attenuated: self.albedo,
        }
    }

    pub fn new(albedo: Vector3) -> (r: Metal)
        ensures
            r.albedo == albedo,
    {
        Metal { albedo }
    }

    /// Scatters along the hit's normal mirrored about the albedo.
    pub fn reflect_from(&self, hit_record: HitRecord) -> (r: ScatterResult)
        ensures
            r == self.scattering(hit_record),
    {
        let reflected = reflect(&hit_record.normal, &self.albedo);
        let scattered_ray = Ray::new(hit_record.point, reflected);
        ScatterResult::new(scattered_ray, self.albedo)
    }
}

impl Material for Metal {
    /// The same whatever the sample: a mirror draws nothing.
    open spec fn scatter_spec(&self, hit_record: HitRecord, sample: Vector3) -> Option<
        ScatterResult,
    > {
        Some(self.scattering(hit_record))
    }

    fn scatter(&self, hit_record: HitRecord, rng: &mut StdRng) -> (r: Option<ScatterResult>) {
        let r = Some(self.reflect_from(hit_record));
        proof {
            crate::vector::lemma_fallback_in_unit_ball();
            let sample = unit_vector_spec(crate::vector::fallback_direction());
            assert(is_unit_sample(sample));
            assert(r == self.scatter_spec(hit_record, sample));
        }
        r
    }
}

/// One of the materials of this crate; this is what a surface holds.
#[derive(Clone, Copy, Debug, PartialEq, Eq, Structural)]
pub enum AnyMaterial {
    Lambertian(Lambertian),
    Metal(Metal),
}

impl AnyMaterial {
    /// What the material makes of a hit when the direction drawn is
    /// `sample`: what the material that it holds makes of it.
    pub open spec fn scattering(self, hit_record: HitRecord, sample: Vector3) -> Option<
        ScatterResult,
    > {
        match self {
            AnyMaterial::Lambertian(m) => Some(m.scattering(hit_record, sample)),
            AnyMaterial::Metal(m) => Some(m.scattering(hit_record)),
        }
    }
}

impl AnyMaterial {
    /// Scatters with `sample` as the direction drawn.
    pub fn scatter_with(&self, hit_record: HitRecord, sample: Vector3) -> (r: Option<
        ScatterResult,
    >)
        ensures
            r == self.scattering(hit_record, sample),
    {
        match self {
            AnyMaterial::Lambertian(m) => Some(m.scatter_with(hit_record, sample)),
            AnyMaterial::Metal(m) => Some(m.reflect_from(hit_record)),
        }
    }
}

impl Material for AnyMaterial {
    open spec fn scatter_spec(&self, hit_record: HitRecord, sample: Vector3) -> Option<
        ScatterResult,
    > {
        self.scattering(hit_record, sample)
    }

    fn scatter(&self, hit_record: HitRecord, rng: &mut StdRng) -> (r: Option<ScatterResult>) {
        match self {
            AnyMaterial::Lambertian(m) => m.scatter(hit_record, rng),
            AnyMaterial::Metal(m) => m.scatter(hit_record, rng),
        }
    }
}

} // verus!
