//! Materials: what becomes of a ray at the surface that it hits.
//!
//! A material is a few numbers, and is held by value wherever it is needed.
//! The three kinds of the scene are here with what describes them; how each
//! of them scatters is arithmetic on directions, partly left to chance, and
//! comes with the implementation of `Material` that a scene is built on.

use crate::binary64::{clamp, clamped, smaller, smaller_of, Triple, ONE, ZERO};
use crate::hittable::{HitRecord, Ray};
use vstd::prelude::*;

verus! {

/// A material. How it scatters is its own affair, and may be left to
/// chance: diffuse, mirroring or refracting.
pub trait Material: Sized {
    /// What the material may make of the ray `ray` that hit it as `rec`
    /// records: `made` is one of the outcomes of scattering that ray. Each
    /// material says for itself which outcomes those are.
    spec fn scatters(&self, ray: &Ray, rec: &HitRecord<Self>, made: (Triple, Ray, bool)) -> bool;

    /// What the material makes of the ray `ray` that hit it as `rec` records:
    /// the attenuation, which is the share of each colour channel that it
    /// passes on, the scattered ray, and whether there is a scattered ray at
    /// all, or the ray was absorbed.
    fn scatter(&self, ray: &Ray, rec: &HitRecord<Self>) -> (made: (Triple, Ray, bool))
        ensures
            self.scatters(ray, rec, made),
    ;
}

/// A diffuse material of the given colour.
#[derive(Clone, Copy, Debug, PartialEq, Eq, Structural)]
pub struct Lambertian {
    pub color: Triple,
}

impl Lambertian {
    /// The diffuse material of the given colour.
    pub fn new(color: Triple) -> (material: Self)
        ensures
            material.color == color,
    {
        Self { color }
    }
}

/// A mirroring material of the given colour. Its fuzz blurs the mirror
/// image, and lies between zero and one.
#[derive(Clone, Copy, Debug, PartialEq, Eq, Structural)]
pub struct Metal {
    pub color: Triple,
    pub fuzz: u64,
}

impl Metal {
    /// The metal of the given colour and fuzz. Fuzz above one counts as
    /// one, fuzz below zero as zero, and fuzz that is no number as one.
    pub fn new(color: Triple, fuzz: u64) -> (material: Self)
        ensures
            material.color == color,
            material.fuzz == clamped(smaller_of(fuzz, ONE), ZERO, ONE),
    {
        Self { color, fuzz: clamp(smaller(fuzz, ONE), ZERO, ONE) }
    }
}

/// A clear material that refracts by the given index.
#[derive(Clone, Copy, Debug, PartialEq, Eq, Structural)]
pub struct Dielectric {
    pub ir: u64,
}

impl Dielectric {
    /// The clear material of the given index of refraction.
    pub fn new(ir: u64) -> (material: Self)
        ensures
            material.ir == ir,
    {
        Self { ir }
    }
}

} // verus!
