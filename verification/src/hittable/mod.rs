//! Rays, surfaces, and what a ray finds where it meets a surface.
//!
//! Points, directions and ray parameters are held by the encodings of their
//! numbers. Finding the point of a hit is arithmetic, and left to each kind
//! of surface; which way the surface faces there, and with it the normal
//! that is kept, is decided here.

pub mod hittable_list;
pub mod material;

use crate::binary64::{less, less_than, negate, reversed, Triple, ZERO};
use vstd::prelude::*;

verus! {

/// A ray: the points `origin + t * dir`, for the ray parameter `t`.
#[derive(Clone, Copy, Debug, PartialEq, Eq, Structural)]
pub struct Ray {
    pub origin: Triple,
    pub dir: Triple,
}

impl Ray {
    /// The ray from `origin` in the direction `dir`.
    pub fn new(origin: Triple, dir: Triple) -> (ray: Self)
        ensures
            ray.origin == origin,
            ray.dir == dir,
    {
        Self { origin, dir }
    }
}

/// A surface that a ray can hit, of a material of type `M`. Hitting is a
/// pure query: what a surface answers depends on the surface, the ray and
/// the range alone.
pub trait Hittable<M> {
    /// The surface's answer: the hit of the ray `r` whose ray parameter lies
    /// strictly between `min` and `max`, if there is one; where there are
    /// several, the nearest.
    spec fn answer(&self, r: Ray, min: u64, max: u64) -> Option<HitRecord<M>>;

    /// Finds the surface's answer.
    fn hit(&self, r: Ray, min: u64, max: u64) -> (rec: Option<HitRecord<M>>)
        ensures
            rec == self.answer(r, min, max),
    ;
}

/// The record of a hit: where the ray met the surface, at which ray
/// parameter, the surface's normal there turned against the ray, whether the
/// ray came from outside, and the material that it met.
pub struct HitRecord<M> {
    pub p: Triple,
    pub normal: Triple,
    pub t: u64,
    pub mat: M,
    pub front_face: bool,
}

impl<M> HitRecord<M> {
    /// A record that is still to be filled: everything zero, the face not
    /// the front.
    pub fn new(mat: M) -> (rec: Self)
        ensures
            rec.p == (Triple { x: ZERO, y: ZERO, z: ZERO }),
            rec.normal == (Triple { x: ZERO, y: ZERO, z: ZERO }),
            rec.t == ZERO,
            rec.mat == mat,
            !rec.front_face,
    {
        Self {
            p: Triple { x: ZERO, y: ZERO, z: ZERO },
            normal: Triple { x: ZERO, y: ZERO, z: ZERO },
            t: ZERO,
            mat,
            front_face: false,
        }
    }

    /// Sets the face and the normal of the hit. `facing` is the dot product
    /// of the ray's direction and the surface's outward normal: the ray
    /// meets the front face exactly if it is less than zero. The normal
    /// that is kept is the outward normal at the front face, and its
    /// opposite at the back.
    pub fn set_face_normal(&mut self, facing: u64, outward_normal: Triple)
        ensures
            final(self).front_face == less_than(facing, ZERO),
            final(self).normal == if less_than(facing, ZERO) {
                outward_normal
            } else {
                reversed(outward_normal)
            },
            final(self).p == old(self).p,
            final(self).t == old(self).t,
            final(self).mat == old(self).mat,
    {
        self.front_face = less(facing, ZERO);
        if self.front_face {
            self.normal = outward_normal;
        } else {
            self.normal = Triple {
                x: negate(outward_normal.x),
                y: negate(outward_normal.y),
                z: negate(outward_normal.z),
            };
        }
    }
}

} // verus!
