use raytracer::binary64::Triple;
use raytracer::hittable::hittable_list::HittableList;
use raytracer::hittable::material::Material;
use raytracer::hittable::{HitRecord, Hittable, Ray};
use raytracer::integrator::{bounce, trace, Bounce, Radiance, NEAR};

fn triple(x: f64, y: f64, z: f64) -> Triple {
    Triple { x: x.to_bits(), y: y.to_bits(), z: z.to_bits() }
}

/// Materials that do without chance.
#[derive(Clone, Copy, Debug, PartialEq)]
enum Paint {
    /// Sends the ray back where it came from and passes on this share of
    /// every channel.
    Mirror(f64),
    /// Lets the ray through as it is.
    Glass,
    /// Swallows the ray.
    Soot,
}

impl Material for Paint {
    /// These materials leave nothing to chance: what they may make of a
    /// ray is what they make of it.
    fn scatters(&self, ray: &Ray, rec: &HitRecord<Self>, made: (Triple, Ray, bool)) -> bool {
        made == self.scatter(ray, rec)
    }

    fn scatter(&self, ray: &Ray, rec: &HitRecord<Self>) -> (Triple, Ray, bool) {
        match self {
            Paint::Mirror(share) => {
                let back = Triple {
                    x: (-f64::from_bits(ray.dir.x)).to_bits(),
                    y: (-f64::from_bits(ray.dir.y)).to_bits(),
                    z: (-f64::from_bits(ray.dir.z)).to_bits(),
                };
                (triple(*share, *share, *share), Ray::new(rec.p, back), true)
            }
            Paint::Glass => (triple(1.0, 1.0, 1.0), Ray::new(rec.p, ray.dir), true),
            Paint::Soot => (triple(0.0, 0.0, 0.0), *ray, false),
        }
    }
}

/// A wall across the z axis at `z`, hit by rays along the axis from either
/// side.
struct Wall {
    z: f64,
    paint: Paint,
}

impl Hittable<Paint> for Wall {
    /// The wall's answer is what `hit` finds.
    fn answer(&self, r: Ray, min: u64, max: u64) -> Option<HitRecord<Paint>> {
        self.hit(r, min, max)
    }

    fn hit(&self, r: Ray, min: u64, max: u64) -> Option<HitRecord<Paint>> {
        let from = f64::from_bits(r.origin.z);
        let speed = f64::from_bits(r.dir.z);
        let t = (self.z - from) / speed;
        if f64::from_bits(min) < t && t < f64::from_bits(max) {
            let mut rec = HitRecord::new(self.paint);
            rec.t = t.to_bits();
            rec.p = triple(0.0, 0.0, self.z);
            rec.set_face_normal((-speed.abs()).to_bits(), triple(0.0, 0.0, -speed.signum()));
            Some(rec)
        } else {
            None
        }
    }
}

fn scene(walls: &[(f64, Paint)]) -> HittableList<Wall> {
    let mut list = HittableList::new();
    for (z, paint) in walls {
        list.add(Wall { z: *z, paint: *paint });
    }
    list
}

fn forwards() -> Ray {
    Ray::new(triple(0.0, 0.0, 0.0), triple(0.0, 0.0, -1.0))
}

fn shares(attenuations: &Vec<Triple>) -> Vec<f64> {
    attenuations.iter().map(|a| f64::from_bits(a.x)).collect()
}

#[test]
fn near_bound_is_a_thousandth() {
    assert_eq!(NEAR, 0.001f64.to_bits());
}

/// A scene that must not be asked.
struct Forbidden;

impl Hittable<Paint> for Forbidden {
    fn answer(&self, r: Ray, min: u64, max: u64) -> Option<HitRecord<Paint>> {
        self.hit(r, min, max)
    }

    fn hit(&self, _r: Ray, _min: u64, _max: u64) -> Option<HitRecord<Paint>> {
        panic!("the scene was asked");
    }
}

#[test]
fn without_depth_the_path_is_black_and_no_ray_is_traced() {
    for depth in [0, -1, -50, i32::MIN] {
        let walk = trace(forwards(), &Forbidden, depth);
        assert_eq!(walk.end, Radiance::Black);
        assert!(walk.attenuations.is_empty());
        assert_eq!(walk.last, forwards());
    }
}

#[test]
fn miss_ends_in_the_background_of_the_ray() {
    let walk = trace(forwards(), &scene(&[]), 50);
    assert_eq!(walk.end, Radiance::Background);
    assert!(walk.attenuations.is_empty());
    assert_eq!(walk.last, forwards());
}

#[test]
fn wall_behind_the_ray_is_missed() {
    let walk = trace(forwards(), &scene(&[(3.0, Paint::Soot)]), 50);
    assert_eq!(walk.end, Radiance::Background);
}

#[test]
fn absorbing_hit_ends_in_black() {
    let walk = trace(forwards(), &scene(&[(-3.0, Paint::Soot)]), 50);
    assert_eq!(walk.end, Radiance::Black);
    assert!(walk.attenuations.is_empty());
}

#[test]
fn nearest_wall_decides() {
    let walls = [(-5.0, Paint::Soot), (-2.0, Paint::Mirror(0.5)), (-9.0, Paint::Soot)];
    let walk = trace(forwards(), &scene(&walls), 50);
    assert_eq!(walk.end, Radiance::Background);
    assert_eq!(shares(&walk.attenuations), vec![0.5]);
    assert_eq!(walk.last, Ray::new(triple(0.0, 0.0, -2.0), triple(-0.0, -0.0, 1.0)));
}

#[test]
fn scattered_ray_does_not_hit_the_surface_it_leaves() {
    let walk = trace(forwards(), &scene(&[(-2.0, Paint::Glass)]), 50);
    assert_eq!(walk.end, Radiance::Background);
    assert_eq!(shares(&walk.attenuations), vec![1.0]);
}

#[test]
fn attenuations_come_in_the_order_of_the_bounces() {
    let walls = [(-2.0, Paint::Mirror(0.5)), (1.0, Paint::Mirror(0.25)), (-4.0, Paint::Soot)];
    let walk = trace(forwards(), &scene(&walls), 50);
    assert_eq!(walk.end, Radiance::Black);
    assert_eq!(shares(&walk.attenuations), vec![0.5, 0.25, 0.5, 0.25, 0.5, 0.25, 0.5, 0.25,
        0.5, 0.25, 0.5, 0.25, 0.5, 0.25, 0.5, 0.25, 0.5, 0.25, 0.5, 0.25, 0.5, 0.25, 0.5, 0.25,
        0.5, 0.25, 0.5, 0.25, 0.5, 0.25, 0.5, 0.25, 0.5, 0.25, 0.5, 0.25, 0.5, 0.25, 0.5, 0.25,
        0.5, 0.25, 0.5, 0.25, 0.5, 0.25, 0.5, 0.25, 0.5, 0.25]);
}

#[test]
fn glass_then_soot() {
    let walls = [(-2.0, Paint::Glass), (-3.0, Paint::Glass), (-4.0, Paint::Soot)];
    let walk = trace(forwards(), &scene(&walls), 50);
    assert_eq!(walk.end, Radiance::Black);
    assert_eq!(shares(&walk.attenuations), vec![1.0, 1.0]);
    assert_eq!(walk.last, Ray::new(triple(0.0, 0.0, -3.0), triple(0.0, 0.0, -1.0)));
}

#[test]
fn depth_bounds_the_bounces() {
    let mirrors = [(-1.0, Paint::Mirror(0.9)), (1.0, Paint::Mirror(0.9))];
    for depth in [1, 2, 7, 50] {
        let walk = trace(forwards(), &scene(&mirrors), depth);
        assert_eq!(walk.end, Radiance::Black);
        assert_eq!(walk.attenuations.len(), depth as usize);
    }
}

#[test]
fn depth_one_sees_no_further_than_the_first_hit() {
    let walk = trace(forwards(), &scene(&[(-2.0, Paint::Glass)]), 1);
    assert_eq!(walk.end, Radiance::Black);
    assert_eq!(shares(&walk.attenuations), vec![1.0]);
    let sky = trace(forwards(), &scene(&[]), 1);
    assert_eq!(sky.end, Radiance::Background);
}

#[test]
fn background_is_reached_with_a_bounce_to_spare() {
    let walls = [(-2.0, Paint::Glass), (-3.0, Paint::Glass)];
    let walk = trace(forwards(), &scene(&walls), 3);
    assert_eq!(walk.end, Radiance::Background);
    assert_eq!(walk.attenuations.len(), 2);
    let short = trace(forwards(), &scene(&walls), 2);
    assert_eq!(short.end, Radiance::Black);
    assert_eq!(short.attenuations.len(), 2);
}

fn sideways() -> Ray {
    Ray::new(triple(0.0, 0.0, -2.0), triple(1.0, 0.0, 0.0))
}

#[test]
fn miss_leaves_the_walk_as_it_is() {
    let mut current = forwards();
    let mut attenuations = vec![triple(0.5, 0.5, 0.5)];
    assert_eq!(bounce(&mut current, &mut attenuations, None), Bounce::Miss);
    assert_eq!(current, forwards());
    assert_eq!(attenuations, vec![triple(0.5, 0.5, 0.5)]);
}

#[test]
fn absorbed_ray_leaves_the_walk_as_it_is() {
    let mut current = forwards();
    let mut attenuations = vec![triple(0.5, 0.5, 0.5)];
    let made = Some((triple(0.9, 0.8, 0.7), sideways(), false));
    assert_eq!(bounce(&mut current, &mut attenuations, made), Bounce::Absorbed);
    assert_eq!(current, forwards());
    assert_eq!(attenuations, vec![triple(0.5, 0.5, 0.5)]);
}

#[test]
fn scattered_ray_is_followed_and_its_attenuation_kept() {
    let mut current = forwards();
    let mut attenuations = vec![triple(0.5, 0.5, 0.5)];
    let made = Some((triple(0.9, 0.8, 0.7), sideways(), true));
    assert_eq!(bounce(&mut current, &mut attenuations, made), Bounce::Scattered);
    assert_eq!(current, sideways());
    assert_eq!(attenuations, vec![triple(0.5, 0.5, 0.5), triple(0.9, 0.8, 0.7)]);
}

#[test]
fn first_bounce_starts_the_attenuations() {
    let mut current = forwards();
    let mut attenuations = Vec::new();
    let made = Some((triple(0.1, 0.2, 0.3), sideways(), true));
    assert_eq!(bounce(&mut current, &mut attenuations, made), Bounce::Scattered);
    assert_eq!(attenuations, vec![triple(0.1, 0.2, 0.3)]);
}

#[test]
fn empty_scene_is_background_for_every_ray_and_depth() {
    let empty: HittableList<Wall> = HittableList::new();
    let rays = [
        Ray::new(triple(3.0, -7.0, 2.0), triple(0.0, 1.0, 0.0)),
        Ray::new(triple(3.0, -7.0, 2.0), triple(0.0, -1.0, 0.0)),
        Ray::new(triple(0.0, 0.0, 0.0), triple(0.6, 0.0, 0.8)),
    ];
    for ray in rays {
        for depth in [1, 2, 50, i32::MAX] {
            let walk = trace(ray, &empty, depth);
            assert_eq!(walk.end, Radiance::Background);
            assert_eq!(walk.last, ray);
            assert!(walk.attenuations.is_empty());
        }
    }
}

#[test]
fn walk_follows_the_rays_that_the_materials_scatter() {
    let walls = [(-2.0, Paint::Mirror(0.5)), (1.0, Paint::Mirror(0.25)), (-4.0, Paint::Soot)];
    let list = scene(&walls);
    let walk = trace(forwards(), &list, 3);
    assert_eq!(walk.end, Radiance::Black);
    assert_eq!(shares(&walk.attenuations), vec![0.5, 0.25, 0.5]);
    // Forwards to the first mirror, back to the second, forwards again.
    let mut ray = forwards();
    for attenuation in &walk.attenuations {
        let rec = list.hit(ray, NEAR, f64::INFINITY.to_bits()).unwrap();
        let made = rec.mat.scatter(&ray, &rec);
        assert!(rec.mat.scatters(&ray, &rec, made));
        assert_eq!(made.0, *attenuation);
        assert!(made.2);
        ray = made.1;
    }
    assert_eq!(walk.last, ray);
}
