//! A minimal offline path tracer with a verified core.
//!
//! Geometry, shading and sampling run on a saturating fixed-point scalar
//! (`fixed::Fx`), so every arithmetic step has an exact mathematical
//! description and the whole rendering pipeline carries contracts: sphere
//! intersection is specified as a quadratic-root solution, the scene
//! aggregate is proved to return the nearest member hit, materials promise
//! their scattering laws, and the pixel-map encoder is specified byte by
//! byte. Randomness comes from a caller-supplied seeded generator, so a
//! render is reproducible.

pub mod camera;
pub mod fixed;
pub mod hittable;
pub mod interval;
pub mod material;
pub mod ppm;
pub mod sphere;
pub mod ray;
pub mod rng;
pub mod vec3;
