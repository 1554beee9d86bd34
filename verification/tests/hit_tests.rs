use raytrace::hitable::{closer, ClosestHit, HitRecord};
use raytrace::scalar::Scalar;
use raytrace::sphere::Roots;
use raytrace::vec3::Vec3;

fn s(x: f32) -> Scalar {
    Scalar::from_bits(x.to_bits())
}

fn f(x: Scalar) -> f32 {
    f32::from_bits(x.to_bits())
}

fn v(x: f32, y: f32, z: f32) -> Vec3 {
    Vec3::new(s(x), s(y), s(z))
}

fn rec(t: f32, material: usize) -> HitRecord {
    HitRecord { t: s(t), p: v(0.0, 0.0, t), n: v(0.0, 0.0, 1.0), u: s(0.0), v: s(0.0), material }
}

fn dot(a: [f32; 3], b: [f32; 3]) -> f32 {
    a[0] * b[0] + a[1] * b[1] + a[2] * b[2]
}

fn roots(center: [f32; 3], radius: f32, origin: [f32; 3], direction: [f32; 3]) -> Roots {
    let oc = [origin[0] - center[0], origin[1] - center[1], origin[2] - center[2]];
    let a = dot(direction, direction);
    let b = dot(oc, direction);
    let c = dot(oc, oc) - radius * radius;
    let d = b * b - a * c;
    Roots { discriminant: s(d), near: s((-b - d.sqrt()) / a), far: s((-b + d.sqrt()) / a) }
}

#[test]
fn sphere_at_the_origin_is_hit_at_four() {
    let origin = [0.0, 0.0, 5.0];
    let direction = [0.0, 0.0, -1.0];
    let t = roots([0.0, 0.0, 0.0], 1.0, origin, direction).select(s(0.001), s(f32::MAX));
    let t = f(t.unwrap());
    assert_eq!(t, 4.0);
    let p = [origin[0] + t * direction[0], origin[1] + t * direction[1], origin[2] + t * direction[2]];
    assert_eq!(p, [0.0, 0.0, 1.0]);
    let normal = [p[0] / 1.0, p[1] / 1.0, p[2] / 1.0];
    assert_eq!(normal, [0.0, 0.0, 1.0]);
}

#[test]
fn sphere_is_hit_at_the_same_place_by_a_longer_direction() {
    // The direction from (0, 0, 5) toward (0, 0, -5) is not normalised.
    let t = roots([0.0, 0.0, 0.0], 1.0, [0.0, 0.0, 5.0], [0.0, 0.0, -10.0])
        .select(s(0.001), s(f32::MAX));
    assert_eq!(f(t.unwrap()), 0.4);
}

#[test]
fn ray_that_passes_a_sphere_hits_nothing() {
    let r = roots([0.0, 0.0, 0.0], 1.0, [2.0, 0.0, 5.0], [0.0, 0.0, -1.0]);
    assert!(f(r.discriminant) < 0.0);
    assert_eq!(r.select(s(0.001), s(f32::MAX)), None);
    assert_eq!(r.select(s(-f32::MAX), s(f32::MAX)), None);
}

#[test]
fn ray_that_touches_a_sphere_hits_nothing() {
    let r = roots([0.0, 0.0, 0.0], 1.0, [1.0, 0.0, 5.0], [0.0, 0.0, -1.0]);
    assert_eq!(f(r.discriminant), 0.0);
    assert_eq!(r.select(s(0.001), s(f32::MAX)), None);
}

#[test]
fn far_root_is_taken_where_the_near_one_is_out_of_range() {
    let r = roots([0.0, 0.0, 0.0], 1.0, [0.0, 0.0, 5.0], [0.0, 0.0, -1.0]);
    assert_eq!(r.select(s(4.5), s(f32::MAX)).map(f), Some(6.0));
    assert_eq!(r.select(s(4.0), s(f32::MAX)).map(f), Some(6.0));
    assert_eq!(r.select(s(0.001), s(4.0)), None);
    assert_eq!(r.select(s(0.001), s(6.0)).map(f), Some(4.0));
    assert_eq!(r.select(s(4.0), s(6.0)), None);
    assert_eq!(r.select(s(6.5), s(f32::MAX)), None);
    // From inside the sphere only the far crossing lies ahead.
    let inside = roots([0.0, 0.0, 0.0], 1.0, [0.0, 0.0, 0.0], [0.0, 0.0, -1.0]);
    assert_eq!(inside.select(s(0.001), s(f32::MAX)).map(f), Some(1.0));
}

#[test]
fn discriminant_that_is_not_a_number_hits_nothing() {
    let r = Roots { discriminant: s(f32::NAN), near: s(1.0), far: s(2.0) };
    assert_eq!(r.select(s(0.0), s(10.0)), None);
}

#[test]
fn closer_prefers_the_smaller_parameter() {
    let a = rec(2.0, 0);
    let b = rec(3.0, 1);
    assert_eq!(closer(Some(a), Some(b)), Some(a));
    assert_eq!(closer(Some(b), Some(a)), Some(a));
    assert_eq!(closer(Some(a), None), Some(a));
    assert_eq!(closer(None, Some(b)), Some(b));
    assert_eq!(closer(None, None), None);
}

#[test]
fn closer_prefers_the_second_of_two_equal_hits() {
    let a = rec(2.0, 0);
    let b = rec(2.0, 1);
    assert_eq!(closer(Some(a), Some(b)), Some(b));
    assert_eq!(closer(Some(b), Some(a)), Some(a));
}

#[test]
fn closest_hit_of_a_list_shrinks_the_limit() {
    let mut best = ClosestHit::new(s(f32::MAX));
    assert_eq!(f(best.limit()), f32::MAX);
    best.offer(None);
    assert_eq!(f(best.limit()), f32::MAX);
    best.offer(Some(rec(7.0, 0)));
    assert_eq!(f(best.limit()), 7.0);
    best.offer(None);
    best.offer(Some(rec(3.0, 2)));
    assert_eq!(f(best.limit()), 3.0);
    assert_eq!(best.finish(), Some(rec(3.0, 2)));
}

#[test]
fn closest_hit_of_an_empty_list_is_none() {
    let best = ClosestHit::new(s(f32::MAX));
    assert_eq!(best.finish(), None);
}

#[test]
fn closest_hit_among_spheres_tried_in_any_order() {
    let spheres = [([0.0, 0.0, -10.0], 1.0), ([0.0, 0.0, 0.0], 1.0), ([0.0, 0.0, -5.0], 1.0)];
    for order in [[0usize, 1, 2], [2, 1, 0], [1, 0, 2], [1, 2, 0]] {
        let mut best = ClosestHit::new(s(f32::MAX));
        for &i in order.iter() {
            let (c, r) = spheres[i];
            let hit = roots(c, r, [0.0, 0.0, 5.0], [0.0, 0.0, -1.0])
                .select(s(0.001), best.limit())
                .map(|t| rec(f(t), i));
            best.offer(hit);
        }
        let hit = best.finish().unwrap();
        assert_eq!(hit.material, 1);
        assert_eq!(f(hit.t), 4.0);
    }
}

#[test]
fn closest_hit_ignores_a_hit_beyond_the_limit() {
    let mut best = ClosestHit::new(s(10.0));
    best.offer(Some(rec(11.0, 0)));
    assert_eq!(best.finish(), None);
    let mut best = ClosestHit::new(s(10.0));
    best.offer(Some(rec(4.0, 0)));
    best.offer(Some(rec(6.0, 1)));
    best.offer(Some(rec(f32::NAN, 2)));
    assert_eq!(f(best.limit()), 4.0);
    assert_eq!(best.finish(), Some(rec(4.0, 0)));
    // A hit at the limit takes the place of the record.
    let mut best = ClosestHit::new(s(10.0));
    best.offer(Some(rec(10.0, 0)));
    best.offer(Some(rec(10.0, 1)));
    assert_eq!(best.finish(), Some(rec(10.0, 1)));
}
