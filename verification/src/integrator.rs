//! The integrator: how a light path is followed through the scene, how far,
//! and how it ends.
//!
//! The radiance along a ray is found by following the ray from bounce to
//! bounce. `trace` does that: it asks the scene what each ray hits and the
//! material that was hit what becomes of the ray, and goes on as a `Path`
//! says, which is told what each ray found and bounds the bounces by the
//! depth that the path started with. What comes back is the walk that was
//! made; turning it into a colour is arithmetic, and the caller's.

use crate::binary64::{Triple, INFINITY};
use crate::hittable::material::Material;
use crate::hittable::{HitRecord, Hittable, Ray};
use vstd::prelude::*;

verus! {

/// What a traced ray found.
#[derive(Clone, Copy, Debug, PartialEq, Eq, Structural)]
pub enum Bounce {
    /// The ray left the scene.
    Miss,
    /// The ray hit a surface whose material absorbed it.
    Absorbed,
    /// The ray hit a surface and was scattered into a new ray.
    Scattered,
}

/// The radiance that ends a path, before the attenuation of the bounces
/// that led there.
#[derive(Clone, Copy, Debug, PartialEq, Eq, Structural)]
pub enum Radiance {
    /// No light.
    Black,
    /// The background gradient along the last ray.
    Background,
}

/// What the caller is to do next.
#[derive(Clone, Copy, Debug, PartialEq, Eq, Structural)]
pub enum Step {
    /// Trace the current ray and record what it found.
    Trace,
    /// The path has ended with this radiance.
    Done(Radiance),
}

/// How a path of the given depth ends when its rays find `bounces`, one
/// after the other; `None` while it has not ended. Without depth left the
/// path is black. Else the first ray decides: a miss ends the path in the
/// background, an absorbing hit ends it in black, and a scattering hit
/// leaves the rest to the scattered ray, with one bounce less.
pub open spec fn outcome(depth: int, bounces: Seq<Bounce>) -> Option<Radiance>
    decreases bounces.len(),
{
    if depth <= 0 {
        Some(Radiance::Black)
    } else if bounces.len() == 0 {
        None
    } else {
        match bounces.first() {
            Bounce::Miss => Some(Radiance::Background),
            Bounce::Absorbed => Some(Radiance::Black),
            Bounce::Scattered => outcome(depth - 1, bounces.drop_first()),
        }
    }
}

/// A path without depth is black, whatever its rays would find.
pub proof fn lemma_no_depth_is_black(depth: int, bounces: Seq<Bounce>)
    requires
        depth <= 0,
    ensures
        outcome(depth, bounces) == Some(Radiance::Black),
{
}

/// The depth bounds the path: one that has not ended has traced fewer rays
/// than its depth, and all of them were scattered.
pub proof fn lemma_open_path(depth: int, bounces: Seq<Bounce>)
    requires
        outcome(depth, bounces) is None,
    ensures
        bounces.len() < depth,
        forall|i: int| 0 <= i < bounces.len() ==> bounces[i] == Bounce::Scattered,
    decreases bounces.len(),
{
    if bounces.len() > 0 {
        let rest = bounces.drop_first();
        lemma_open_path(depth - 1, rest);
        assert forall|i: int| 0 <= i < bounces.len() implies bounces[i] == Bounce::Scattered by {
            if i > 0 {
                assert(bounces[i] == rest[i - 1]);
            }
        }
    }
}

/// Once a path has ended, what further rays would find changes nothing.
pub proof fn lemma_ended_path(depth: int, bounces: Seq<Bounce>, more: Seq<Bounce>)
    requires
        outcome(depth, bounces) is Some,
    ensures
        outcome(depth, bounces + more) == outcome(depth, bounces),
    decreases bounces.len(),
{
    if depth > 0 {
        assert(bounces.len() > 0);
        assert((bounces + more).first() == bounces.first());
        assert((bounces + more).drop_first() =~= bounces.drop_first() + more);
        if bounces.first() == Bounce::Scattered {
            lemma_ended_path(depth - 1, bounces.drop_first(), more);
        }
    }
}

/// An open path ends, or not, by what its next ray finds and by the depth
/// that the scattered rays before it have left.
pub proof fn lemma_next_bounce(depth: int, bounces: Seq<Bounce>, found: Bounce)
    requires
        outcome(depth, bounces) is None,
    ensures
        outcome(depth, bounces.push(found)) == outcome(depth - bounces.len(), seq![found]),
    decreases bounces.len(),
{
    if bounces.len() == 0 {
        assert(bounces.push(found) =~= seq![found]);
    } else {
        assert(bounces.push(found).first() == bounces.first());
        assert(bounces.push(found).drop_first() =~= bounces.drop_first().push(found));
        lemma_next_bounce(depth - 1, bounces.drop_first(), found);
    }
}

/// With depth left, one bounce ends a path unless it scatters the ray and
/// leaves depth for another.
pub proof fn lemma_one_bounce(depth: int, found: Bounce)
    requires
        depth > 0,
    ensures
        outcome(depth, seq![found]) == match found {
            Bounce::Miss => Some(Radiance::Background),
            Bounce::Absorbed => Some(Radiance::Black),
            Bounce::Scattered => if depth == 1 {
                Some(Radiance::Black)
            } else {
                None
            },
        },
{
    assert(seq![found].first() == found);
    assert(seq![found].drop_first() =~= Seq::<Bounce>::empty());
    reveal_with_fuel(outcome, 2);
}

/// A light path that is being followed.
pub struct Path {
    depth: i32,
    end: Option<Radiance>,
    start: Ghost<int>,
    found: Ghost<Seq<Bounce>>,
}

impl Path {
    /// The depth that the path started with.
    pub closed spec fn start(&self) -> int {
        self.start@
    }

    /// What the path's rays have found so far.
    pub closed spec fn bounces(&self) -> Seq<Bounce> {
        self.found@
    }

    /// The path's invariant: it keeps the depth that is left and how it
    /// ended, as its start and its bounces determine them.
    pub closed spec fn wf(&self) -> bool {
        &&& self.end == outcome(self.start@, self.found@)
        &&& self.end is None ==> self.depth == self.start@ - self.found@.len()
    }

    /// A path of the given depth, before its first ray.
    pub fn new(depth: i32) -> (path: Self)
        ensures
            path.wf(),
            path.start() == depth,
            path.bounces() == Seq::<Bounce>::empty(),
    {
        let end = if depth <= 0 {
            Some(Radiance::Black)
        } else {
            None
        };
        Path { depth, end, start: Ghost(depth as int), found: Ghost(Seq::empty()) }
    }

    /// What to do next: trace a ray while the path is open.
    pub fn next_step(&self) -> (step: Step)
        requires
            self.wf(),
        ensures
            step == match outcome(self.start(), self.bounces()) {
                Some(radiance) => Step::Done(radiance),
                None => Step::Trace,
            },
    {
        match self.end {
            Some(radiance) => Step::Done(radiance),
            None => Step::Trace,
        }
    }

    /// Records what the ray that was traced found. A path that has ended
    /// takes no more bounces.
    pub fn record(&mut self, found: Bounce)
        requires
            old(self).wf(),
        ensures
            final(self).wf(),
            final(self).start() == old(self).start(),
            final(self).bounces() == if outcome(old(self).start(), old(self).bounces()) is None {
                old(self).bounces().push(found)
            } else {
                old(self).bounces()
            },
    {
        if self.end.is_none() {
            proof {
                lemma_open_path(self.start@, self.found@);
                lemma_next_bounce(self.start@, self.found@, found);
                lemma_one_bounce(self.start@ - self.found@.len(), found);
            }
            match found {
                Bounce::Miss => {
                    self.end = Some(Radiance::Background);
                },
                Bounce::Absorbed => {
                    self.end = Some(Radiance::Black);
                },
                Bounce::Scattered => {
                    self.depth = self.depth - 1;
                    if self.depth <= 0 {
                        self.end = Some(Radiance::Black);
                    }
                },
            }
            self.found = Ghost(self.found@.push(found));
        }
    }
}

/// The encoding of 0.001. A hit counts only beyond it, so that a scattered
/// ray does not hit the surface that it leaves.
pub const NEAR: u64 = 0x3f50_624d_d2f1_a9fc;

/// The walk of a light path through the scene.
pub struct Walk {
    /// The radiance that ended the path.
    pub end: Radiance,
    /// The last ray of the path: where the path ends in the background, the
    /// ray that left the scene.
    pub last: Ray,
    /// The attenuations of the bounces that scattered the path, from the
    /// first to the last. The radiance seen along the path is that of its
    /// end, multiplied by each of them.
    pub attenuations: Vec<Triple>,
}

/// What a ray found, from what came of tracing it: nothing where the scene
/// was missed, else what the material that was hit made of the ray, which
/// is an attenuation, a scattered ray, and whether there is a scattered ray
/// at all.
pub open spec fn bounce_of(scattered: Option<(Triple, Ray, bool)>) -> Bounce {
    match scattered {
        None => Bounce::Miss,
        Some(made) => if made.2 {
            Bounce::Scattered
        } else {
            Bounce::Absorbed
        },
    }
}

/// Number of bounces that scattered the path.
pub open spec fn scatterings(bounces: Seq<Bounce>) -> nat
    decreases bounces.len(),
{
    if bounces.len() == 0 {
        0
    } else if bounces.last() == Bounce::Scattered {
        scatterings(bounces.drop_last()) + 1
    } else {
        scatterings(bounces.drop_last())
    }
}

/// Takes what came of tracing a ray into a walk: the step of `trace`. Where
/// the ray was scattered, its attenuation is put behind those kept so far
/// and the scattered ray becomes the ray to follow. A miss or an absorbed
/// ray leaves both as they are.
pub fn bounce(
    current: &mut Ray,
    attenuations: &mut Vec<Triple>,
    scattered: Option<(Triple, Ray, bool)>,
) -> (found: Bounce)
    ensures
        found == bounce_of(scattered),
        *final(current) == if found == Bounce::Scattered {
            scattered.unwrap().1
        } else {
            *old(current)
        },
        final(attenuations)@ == if found == Bounce::Scattered {
            old(attenuations)@.push(scattered.unwrap().0)
        } else {
            old(attenuations)@
        },
{
    match scattered {
        None => Bounce::Miss,
        Some((attenuation, next, keep_going)) => {
            if keep_going {
                attenuations.push(attenuation);
                *current = next;
                Bounce::Scattered
            } else {
                Bounce::Absorbed
            }
        },
    }
}

/// The rays `rays` are a path through `world` from `ray` to `last` whose
/// bounces have the attenuations `attenuations`: each ray but the last hit
/// the scene as the record of its place in `recs` says, and the material
/// that it hit may scatter it with the attenuation of its place into the
/// ray that comes next.
pub open spec fn follows<M: Material, W: Hittable<M>>(
    world: W,
    ray: Ray,
    last: Ray,
    attenuations: Seq<Triple>,
    rays: Seq<Ray>,
    recs: Seq<HitRecord<M>>,
) -> bool {
    &&& rays.len() == attenuations.len() + 1
    &&& recs.len() == attenuations.len()
    &&& rays.first() == ray
    &&& rays.last() == last
    &&& forall|i: int|
        0 <= i < recs.len() ==> {
            &&& world.answer(rays[i], NEAR, INFINITY) == Some(#[trigger] recs[i])
            &&& recs[i].mat.scatters(&rays[i], &recs[i], (attenuations[i], rays[i + 1], true))
        }
}

/// The scene answers `ray` with a hit whose material may absorb the ray.
pub open spec fn may_absorb<M: Material, W: Hittable<M>>(world: W, ray: Ray) -> bool {
    match world.answer(ray, NEAR, INFINITY) {
        Some(rec) => exists|made: (Triple, Ray, bool)|
            !made.2 && #[trigger] rec.mat.scatters(&ray, &rec, made),
        None => false,
    }
}

/// Follows the path of `ray` through `world` for at most `depth` bounces.
/// Each ray is traced into the scene for its nearest hit beyond `NEAR`. A
/// miss ends the path in the background. At a hit the material scatters the
/// ray: if it absorbs it, the path ends in black; else the scattered ray is
/// followed, with one bounce less. Without a bounce left the path is black,
/// and the scene is not asked.
///
/// The walk that comes back is such a path: its attenuations are those of
/// the bounces, in their order, and its last ray is the one that was missed
/// by the scene, absorbed, or left without a bounce.
pub fn trace<M: Material, W: Hittable<M>>(ray: Ray, world: &W, depth: i32) -> (walk: Walk)
    ensures
        exists|rays: Seq<Ray>, recs: Seq<HitRecord<M>>| #[trigger]
            follows(*world, ray, walk.last, walk.attenuations@, rays, recs),
        depth <= 0 ==> walk.end == Radiance::Black && walk.attenuations@.len() == 0 && walk.last
            == ray,
        depth > 0 && world.answer(ray, NEAR, INFINITY) is None ==> walk.end
            == Radiance::Background && walk.attenuations@.len() == 0 && walk.last == ray,
        depth > 0 && world.answer(ray, NEAR, INFINITY) is Some && walk.attenuations@.len() == 0
            ==> walk.end == Radiance::Black && walk.last == ray,
        depth > 0 ==> walk.attenuations@.len() <= depth,
        depth > 0 ==> match walk.end {
            Radiance::Background => walk.attenuations@.len() < depth && world.answer(
                walk.last,
                NEAR,
                INFINITY,
            ) is None,
            Radiance::Black => walk.attenuations@.len() == depth || (walk.attenuations@.len()
                < depth && may_absorb(*world, walk.last)),
        },
        exists|bounces: Seq<Bounce>|
            outcome(depth as int, bounces) == Some(walk.end) && #[trigger] scatterings(bounces)
                == walk.attenuations@.len(),
{
    let mut path = Path::new(depth);
    let mut current = ray;
    let mut attenuations: Vec<Triple> = Vec::new();
    let ghost mut rays: Seq<Ray> = seq![ray];
    let ghost mut recs: Seq<HitRecord<M>> = Seq::empty();
    proof {
        assert(scatterings(path.bounces()) == 0);
    }
    loop
        invariant
            path.wf(),
            path.start() == depth,
            follows(*world, ray, current, attenuations@, rays, recs),
            scatterings(path.bounces()) == attenuations@.len(),
            outcome(depth as int, path.bounces()) is None ==> path.bounces().len()
                == attenuations@.len(),
            depth <= 0 ==> attenuations@.len() == 0,
            depth > 0 ==> match outcome(depth as int, path.bounces()) {
                None => attenuations@.len() < depth,
                Some(Radiance::Background) => attenuations@.len() < depth && world.answer(
                    current,
                    NEAR,
                    INFINITY,
                ) is None,
                Some(Radiance::Black) => attenuations@.len() == depth || (attenuations@.len()
                    < depth && may_absorb(*world, current)),
            },
        decreases
                (match outcome(depth as int, path.bounces()) {
                    None => 2 * (depth - path.bounces().len()),
                    Some(_) => 1int,
                }),
    {
        match path.next_step() {
            Step::Done(end) => {
                let walk = Walk { end, last: current, attenuations };
                proof {
                    assert(follows(*world, ray, walk.last, walk.attenuations@, rays, recs));
                    if recs.len() > 0 {
                        assert(world.answer(rays[0], NEAR, INFINITY) == Some(recs[0]));
                    }
                }
                return walk;
            },
            Step::Trace => {
                proof {
                    lemma_open_path(depth as int, path.bounces());
                }
                let hit = world.hit(current, NEAR, INFINITY);
                let scattered = match &hit {
                    None => None,
                    Some(rec) => Some(rec.mat.scatter(&current, rec)),
                };
                let ghost traced = current;
                let ghost kept = attenuations@;
                let found = bounce(&mut current, &mut attenuations, scattered);
                proof {
                    lemma_next_bounce(depth as int, path.bounces(), found);
                    lemma_one_bounce(depth - path.bounces().len(), found);
                    assert(path.bounces().push(found).drop_last() =~= path.bounces());
                    if found == Bounce::Scattered {
                        let rec = hit.unwrap();
                        let made = scattered.unwrap();
                        let more_rays = rays.push(current);
                        let more_recs = recs.push(rec);
                        assert forall|i: int| 0 <= i < more_recs.len() implies {
                            &&& world.answer(more_rays[i], NEAR, INFINITY) == Some(
                                #[trigger] more_recs[i],
                            )
                            &&& more_recs[i].mat.scatters(
                                &more_rays[i],
                                &more_recs[i],
                                (attenuations@[i], more_rays[i + 1], true),
                            )
                        } by {
                            if i < recs.len() {
                                assert(more_recs[i] == recs[i]);
                                assert(attenuations@[i] == kept[i]);
                            } else {
                                assert(more_rays[i] == traced);
                                assert(made == (attenuations@[i], more_rays[i + 1], true));
                            }
                        }
                        rays = more_rays;
                        recs = more_recs;
                    } else if found == Bounce::Absorbed {
                        let rec = hit.unwrap();
                        assert(rec.mat.scatters(&traced, &rec, scattered.unwrap()));
                    }
                }
                path.record(found);
            },
        }
    }
}

} // verus!
