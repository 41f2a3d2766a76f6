//! A recursive path tracer over saturating fixed-point arithmetic.
//!
//! A [`camera::Camera`] renders a scene of [`sphere::Sphere`]s into a plain
//! PPM image: for every pixel it traces rays through the scene, lets the
//! material of each surface that a ray hits send the ray on, and averages
//! the colours that the rays gather.
//!
//! Every quantity (coordinates, ray parameters, colours) is a
//! [`fixed::Fixed`], a signed number with 32 fractional bits. All arithmetic
//! is total: results that leave the representable range saturate, and
//! division by zero has a defined value, so no function of this crate can
//! panic. Where a ray meets a sphere is worked out in wider numbers
//! ([`wide`]), so that a scene may fill the range of the numbers.
//!
//! Randomness comes from a generator that the caller hands in, so that a
//! seeded generator gives the same image again. Every function that draws
//! has a companion that takes what was drawn as an argument; the image is
//! a function of the camera, the scene and the draws.

pub mod camera;
pub mod fixed;
pub mod hit;
pub mod interval;
pub mod material;
pub mod ppm;
pub mod ray;
pub mod sphere;
pub mod text;
pub mod unit;
pub mod utility;
pub mod vector;
pub mod wide;
