use raytracer::hittable::hittable_list::{nearest_hit, HittableList};

#[test]
fn new_list_is_empty() {
    let list: HittableList<u32> = HittableList::new();
    assert_eq!(list.len(), 0);
    assert_eq!(list.get(0), None);
}

#[test]
fn add_keeps_the_order() {
    let mut list = HittableList::new();
    list.add("ground");
    list.add("glass");
    list.add("metal");
    assert_eq!(list.len(), 3);
    assert_eq!(list.get(0), Some(&"ground"));
    assert_eq!(list.get(1), Some(&"glass"));
    assert_eq!(list.get(2), Some(&"metal"));
    assert_eq!(list.get(3), None);
}

#[test]
fn clear_forgets_everything() {
    let mut list = HittableList::new();
    list.add(1);
    list.add(2);
    list.clear();
    assert_eq!(list.len(), 0);
    assert_eq!(list.get(0), None);
    list.add(3);
    assert_eq!(list.get(0), Some(&3));
}

fn bits(ts: &[Option<f64>]) -> Vec<Option<u64>> {
    ts.iter().map(|t| t.map(|t| t.to_bits())).collect()
}

fn nearest(ts: &[Option<f64>], min: f64, max: f64) -> Option<usize> {
    nearest_hit(&bits(ts), min.to_bits(), max.to_bits())
}

/// The scan that the choice is to match: every candidate is looked at, and
/// one in range replaces the best so far where it is nearer.
fn scan(ts: &[Option<f64>], min: f64, max: f64) -> Option<usize> {
    let mut best: Option<usize> = None;
    for (i, t) in ts.iter().enumerate() {
        if let Some(t) = t {
            if min < *t && *t < max && best.map_or(true, |b| *t < ts[b].unwrap()) {
                best = Some(i);
            }
        }
    }
    best
}

#[test]
fn nearest_of_no_candidates_is_none() {
    assert_eq!(nearest(&[], 0.001, f64::MAX), None);
}

#[test]
fn nearest_of_misses_is_none() {
    assert_eq!(nearest(&[None, None, None], 0.001, f64::MAX), None);
}

#[test]
fn nearest_is_the_smallest_parameter() {
    let ts = [Some(5.0), None, Some(2.0), Some(3.5), None, Some(2.125)];
    assert_eq!(nearest(&ts, 0.001, f64::MAX), Some(2));
}

#[test]
fn nearest_matches_a_scan_of_all_candidates() {
    let mut ts: Vec<Option<f64>> = Vec::new();
    let mut x: u64 = 12345;
    for i in 0..400u64 {
        x = x.wrapping_mul(6364136223846793005).wrapping_add(1442695040888963407);
        let t = ((x >> 11) as f64 / (1u64 << 53) as f64) * 60.0 - 10.0;
        ts.push(if i % 3 == 0 { None } else { Some(t) });
    }
    for (min, max) in [(0.001, f64::MAX), (0.001, 20.0), (-5.0, 5.0), (30.0, 31.0), (49.99, 50.0)] {
        assert_eq!(nearest(&ts, min, max), scan(&ts, min, max));
    }
    assert!(scan(&ts, 0.001, f64::MAX).is_some());
    assert!(ts.iter().any(|t| t.map_or(false, |t| t < 0.001)));
}

#[test]
fn nearest_matches_a_scan_of_odd_numbers() {
    let ts = [
        Some(f64::NAN),
        Some(f64::INFINITY),
        Some(-0.0),
        Some(0.0),
        Some(f64::MIN_POSITIVE),
        Some(5e-324),
        Some(f64::NEG_INFINITY),
        Some(f64::MAX),
        Some(-1.0),
        None,
        Some(1.0),
    ];
    let bounds = [
        f64::NEG_INFINITY,
        -1.0,
        -0.0,
        0.0,
        5e-324,
        1.0,
        f64::MAX,
        f64::INFINITY,
        f64::NAN,
    ];
    for min in bounds {
        for max in bounds {
            assert_eq!(nearest(&ts, min, max), scan(&ts, min, max));
        }
    }
    assert_eq!(nearest(&ts, -1.5, f64::INFINITY), Some(8));
    assert_eq!(nearest(&ts, 0.0, f64::INFINITY), Some(5));
}

#[test]
fn nearest_of_equal_parameters_is_the_first() {
    assert_eq!(nearest(&[Some(9.0), Some(4.0), Some(4.0), Some(7.0), Some(4.0)], 0.0, 100.0), Some(1));
    assert_eq!(nearest(&[Some(0.0), Some(-0.0)], -1.0, 1.0), Some(0));
    assert_eq!(nearest(&[Some(-0.0), Some(0.0)], -1.0, 1.0), Some(0));
}

#[test]
fn hits_at_or_beyond_the_far_bound_do_not_count() {
    assert_eq!(nearest(&[Some(100.0), Some(250.0)], 0.001, 100.0), None);
    assert_eq!(nearest(&[Some(100.0), Some(99.5), Some(250.0)], 0.001, 100.0), Some(1));
    assert_eq!(nearest(&[Some(f64::MAX)], 0.001, f64::MAX), None);
}

#[test]
fn hits_at_or_before_the_near_bound_do_not_count() {
    assert_eq!(nearest(&[Some(0.001), Some(0.0005)], 0.001, 100.0), None);
    assert_eq!(nearest(&[Some(0.001), Some(0.0011), Some(-3.0)], 0.001, 100.0), Some(1));
}

#[test]
fn what_is_no_number_is_never_hit() {
    assert_eq!(nearest(&[Some(f64::NAN)], f64::NEG_INFINITY, f64::INFINITY), None);
    assert_eq!(nearest(&[Some(f64::NAN), Some(2.0)], 0.0, 10.0), Some(1));
    assert_eq!(nearest(&[Some(2.0)], f64::NAN, 10.0), None);
    assert_eq!(nearest(&[Some(2.0)], 0.0, f64::NAN), None);
}

#[test]
fn nearer_root_wins_when_both_are_in_range() {
    assert_eq!(nearest(&[Some(0.5), Some(1.5)], 0.001, f64::MAX), Some(0));
}

#[test]
fn farther_root_wins_when_the_nearer_is_behind_the_ray() {
    assert_eq!(nearest(&[Some(-0.5), Some(0.5)], 0.001, f64::MAX), Some(1));
}

#[test]
fn no_root_wins_when_both_are_behind_the_ray() {
    assert_eq!(nearest(&[Some(-1.5), Some(-0.5)], 0.001, f64::MAX), None);
}

#[test]
fn nearest_last_candidate_wins_when_nearest() {
    assert_eq!(nearest(&[Some(3.0), Some(2.0), Some(1.0)], 0.0, 10.0), Some(2));
}

/// The two roots of a ray against a sphere, by the half-b form of the
/// quadratic, where there are any.
fn roots(origin: [f64; 3], dir: [f64; 3], center: [f64; 3], radius: f64) -> Option<[f64; 2]> {
    let oc = [origin[0] - center[0], origin[1] - center[1], origin[2] - center[2]];
    let a = dir[0] * dir[0] + dir[1] * dir[1] + dir[2] * dir[2];
    let half_b = oc[0] * dir[0] + oc[1] * dir[1] + oc[2] * dir[2];
    let c = oc[0] * oc[0] + oc[1] * oc[1] + oc[2] * oc[2] - radius * radius;
    let discriminant = half_b * half_b - a * c;
    if discriminant < 0.0 {
        return None;
    }
    let sqrt_d = discriminant.sqrt();
    Some([(-half_b - sqrt_d) / a, (-half_b + sqrt_d) / a])
}

#[test]
fn ray_from_the_centre_leaves_at_the_radius() {
    for radius in [0.5, 1.0, 100.0, 1000.0] {
        for dir in [[0.0, 0.0, -1.0], [1.0, 0.0, 0.0], [0.0, 1.0, 0.0], [0.6, 0.0, 0.8]] {
            let found = roots([1.0, 2.0, 3.0], dir, [1.0, 2.0, 3.0], radius).unwrap();
            let chosen = nearest(&[Some(found[0]), Some(found[1])], 0.001, f64::MAX);
            assert_eq!(chosen, Some(1));
            assert_eq!(found[1], radius);
        }
    }
}

#[test]
fn ray_from_outside_enters_at_the_nearer_root() {
    let found = roots([0.0, 0.0, 0.0], [0.0, 0.0, -1.0], [0.0, 0.0, -1.0], 0.5).unwrap();
    assert_eq!(found, [0.5, 1.5]);
    assert_eq!(nearest(&[Some(found[0]), Some(found[1])], 0.001, f64::MAX), Some(0));
}

#[test]
fn ray_without_direction_hits_nothing() {
    let found = roots([0.0, 0.0, 0.0], [0.0, 0.0, 0.0], [0.0, 0.0, -1.0], 2.0).unwrap();
    assert_eq!(nearest(&[Some(found[0]), Some(found[1])], 0.001, f64::MAX), None);
}

#[test]
fn nearest_sphere_of_a_scene_wins() {
    let origin = [0.0, 0.0, 0.0];
    let dir = [0.0, 0.0, -1.0];
    let spheres = [
        ([0.0, 0.0, -5.0], 1.0),
        ([0.0, 3.0, -2.0], 0.5),
        ([0.0, 0.0, -2.0], 0.5),
        ([0.0, 0.0, 4.0], 1.0),
        ([0.0, -100.5, -1.0], 100.0),
    ];
    let mut ts: Vec<Option<f64>> = Vec::new();
    for (center, radius) in spheres {
        ts.push(roots(origin, dir, center, radius).and_then(|found| {
            nearest(&[Some(found[0]), Some(found[1])], 0.001, f64::MAX).map(|i| found[i])
        }));
    }
    assert_eq!(ts, vec![Some(4.0), None, Some(1.5), None, None]);
    assert_eq!(nearest(&ts, 0.001, f64::MAX), Some(2));
    assert_eq!(nearest(&ts, 0.001, f64::MAX), scan(&ts, 0.001, f64::MAX));
}

#[test]
fn ray_past_the_sphere_hits_nothing() {
    // The discriminant is negative: its square root and the roots are no
    // numbers.
    let (half_b, a, c): (f64, f64, f64) = (-1.0, 1.0, 1.0 + 4.0 - 0.25);
    let discriminant = half_b * half_b - a * c;
    assert!(discriminant < 0.0);
    let sqrt_d = discriminant.sqrt();
    let found = [(-half_b - sqrt_d) / a, (-half_b + sqrt_d) / a];
    assert!(found[0].is_nan() && found[1].is_nan());
    assert_eq!(nearest(&[Some(found[0]), Some(found[1])], 0.001, f64::INFINITY), None);
}
