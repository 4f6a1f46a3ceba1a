//! Core of a ray tracer: ray and material values, the bounding volume
//! hierarchy's shape and builder, the integrator's bounce decisions, and the
//! assembly of an image from independently rendered row bands.
//!
//! The numeric geometry (vectors, intersection tests, scattering directions)
//! is carried by the type parameters of these items and computed by the
//! caller; everything here is exact integer and structural logic.
pub mod ray;
pub mod material;
pub mod bvh;
pub mod integrator;
pub mod bands;
