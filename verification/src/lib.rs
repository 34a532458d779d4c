//! Verified core of a Monte-Carlo path tracer for scenes of spheres.
//!
//! The arithmetic of a render (vector algebra, the intersection of a ray
//! with a sphere, scattering, sampling) is done in hardware numbers by the
//! program that drives this library, behind the traits `Hittable` and
//! `Material`. What is proved here is everything around it that decides
//! something: how numbers compare, which of the hits of a ray is the
//! nearest, which way a surface faces, how a light path is followed and how
//! far, which rows are handed to which workers and when the render is over,
//! how completed rows are put back in order, and how the finished image is
//! turned into pixels and written out as text. Numbers pass through the
//! library by their encodings.
//!
//! The two traits give a name to what lies behind them: a surface's answer
//! to a ray, which depends on the surface, the ray and the range alone, and
//! the outcomes that a material's scattering may have. What is proved of a
//! list of surfaces and of a light path is stated over those names, and
//! holds of every surface and material that is what it says it is.

pub mod binary64;
pub mod hittable;
pub mod integrator;
pub mod ppm;
pub mod scanline;
pub mod scheduler;
