use raytrace::boundingbox::{BoundingBox, Interval};
use raytrace::rect::{Axes, Cuboid, Rect};
use raytrace::scalar::Scalar;
use raytrace::transform::{bounding_points, corners, grow, RotationMatrix};
use raytrace::vec3::Vec3;
use raytrace::volume::span_inside;

fn s(x: f32) -> Scalar {
    Scalar::from_bits(x.to_bits())
}

fn f(x: Scalar) -> f32 {
    f32::from_bits(x.to_bits())
}

fn v(x: f32, y: f32, z: f32) -> Vec3 {
    Vec3::new(s(x), s(y), s(z))
}

fn pair(a: f32, b: f32) -> (Scalar, Scalar) {
    (s(a), s(b))
}

fn bb(min: (f32, f32, f32), max: (f32, f32, f32)) -> BoundingBox {
    BoundingBox { min: v(min.0, min.1, min.2), max: v(max.0, max.1, max.2) }
}

/// Tries a ray against a rectangle with the arithmetic of the renderer;
/// gives the parameter and the surface coordinates of the hit.
fn rect_hit(
    rect: &Rect,
    origin: [f32; 3],
    direction: [f32; 3],
    t_min: f32,
    t_max: f32,
) -> Option<(f32, f32, f32)> {
    let axis = rect.a.fixed_axis();
    let (first, second) = rect.a.free_axes();
    let t = (f(rect.a.fixed()) - origin[axis]) / direction[axis];
    let a = origin[first] + t * direction[first];
    let b = origin[second] + t * direction[second];
    if rect.accepts(s(t), s(a), s(b), s(t_min), s(t_max)) {
        let (ba, bb_) = rect.a.bounds();
        Some((t, (a - f(ba.0)) / (f(ba.1) - f(ba.0)), (b - f(bb_.0)) / (f(bb_.1) - f(bb_.0))))
    } else {
        None
    }
}

#[test]
fn rect_is_hit_inside_its_bounds() {
    let rect = Rect {
        a: Axes::XY { x: pair(0.0, 2.0), y: pair(0.0, 4.0), z: s(-1.0) },
        flip_normal: false,
        material: 3,
    };
    let hit = rect_hit(&rect, [0.5, 1.0, 4.0], [0.0, 0.0, -1.0], 0.001, f32::MAX);
    assert_eq!(hit, Some((5.0, 0.25, 0.25)));
    assert_eq!(rect_hit(&rect, [2.5, 1.0, 4.0], [0.0, 0.0, -1.0], 0.001, f32::MAX), None);
    assert_eq!(rect_hit(&rect, [0.5, 4.5, 4.0], [0.0, 0.0, -1.0], 0.001, f32::MAX), None);
    assert_eq!(rect_hit(&rect, [0.5, 1.0, 4.0], [0.0, 0.0, 1.0], 0.001, f32::MAX), None);
}

#[test]
fn rect_takes_the_ends_of_the_range_and_of_its_bounds() {
    let rect = Rect {
        a: Axes::XZ { x: pair(0.0, 2.0), y: s(1.0), z: pair(-1.0, 1.0) },
        flip_normal: false,
        material: 0,
    };
    assert!(rect.accepts(s(5.0), s(0.0), s(1.0), s(5.0), s(5.0)));
    assert!(rect.accepts(s(5.0), s(2.0), s(-1.0), s(0.0), s(5.0)));
    assert!(!rect.accepts(s(5.0), s(2.5), s(0.0), s(0.0), s(9.0)));
    assert!(!rect.accepts(s(5.0), s(1.0), s(-1.5), s(0.0), s(9.0)));
    assert!(!rect.accepts(s(9.5), s(1.0), s(0.0), s(0.0), s(9.0)));
    assert!(!rect.accepts(s(-0.5), s(1.0), s(0.0), s(0.0), s(9.0)));
}

#[test]
fn rect_in_the_plane_of_the_ray_is_not_hit() {
    // The ray runs inside the plane of the rectangle: the crossing is not
    // a number.
    let rect = Rect {
        a: Axes::YZ { x: s(0.0), y: pair(-1.0, 1.0), z: pair(-1.0, 1.0) },
        flip_normal: false,
        material: 0,
    };
    assert_eq!(rect_hit(&rect, [0.0, 0.0, 5.0], [0.0, 0.0, -1.0], 0.001, f32::MAX), None);
    assert!(!rect.accepts(s(f32::NAN), s(0.0), s(0.0), s(0.001), s(f32::MAX)));
    assert!(!rect.accepts(s(1.0), s(f32::NAN), s(0.0), s(0.001), s(f32::MAX)));
}

#[test]
fn rect_axes_name_the_plane() {
    let xy = Axes::XY { x: pair(0.0, 1.0), y: pair(2.0, 3.0), z: s(4.0) };
    let xz = Axes::XZ { x: pair(0.0, 1.0), y: s(4.0), z: pair(2.0, 3.0) };
    let yz = Axes::YZ { x: s(4.0), y: pair(0.0, 1.0), z: pair(2.0, 3.0) };
    assert_eq!((xy.fixed_axis(), xy.free_axes()), (2, (0, 1)));
    assert_eq!((xz.fixed_axis(), xz.free_axes()), (1, (0, 2)));
    assert_eq!((yz.fixed_axis(), yz.free_axes()), (0, (1, 2)));
    for a in [xy, xz, yz] {
        assert_eq!(f(a.fixed()), 4.0);
        assert_eq!(a.bounds(), (pair(0.0, 1.0), pair(2.0, 3.0)));
    }
}

#[test]
fn rect_normal_points_along_the_fixed_axis() {
    let mut rect = Rect {
        a: Axes::XY { x: pair(0.0, 1.0), y: pair(0.0, 1.0), z: s(0.0) },
        flip_normal: false,
        material: 0,
    };
    assert_eq!(rect.normal(), v(0.0, 0.0, 1.0));
    rect.flip_normal = true;
    assert_eq!(rect.normal(), v(-0.0, -0.0, -1.0));
    rect.a = Axes::XZ { x: pair(0.0, 1.0), y: s(0.0), z: pair(0.0, 1.0) };
    assert_eq!(rect.normal(), v(-0.0, -1.0, -0.0));
    rect.flip_normal = false;
    rect.a = Axes::YZ { x: s(0.0), y: pair(0.0, 1.0), z: pair(0.0, 1.0) };
    assert_eq!(rect.normal(), v(1.0, 0.0, 0.0));
}

#[test]
fn rect_box_is_thickened_on_the_fixed_axis() {
    let rect = Rect {
        a: Axes::XZ { x: pair(0.0, 2.0), y: s(1.0), z: pair(-1.0, 1.0) },
        flip_normal: false,
        material: 0,
    };
    assert_eq!(f(Rect::thickness()), 0.0001);
    let thickness = f(Rect::thickness());
    let b = rect.bounding_box(s(1.0 - thickness), s(1.0 + thickness));
    assert_eq!(b, bb((0.0, 1.0 - 0.0001, -1.0), (2.0, 1.0 + 0.0001, 1.0)));
    assert!(b.is_wf());
    let xy = Rect {
        a: Axes::XY { x: pair(0.0, 2.0), y: pair(3.0, 4.0), z: s(1.0) },
        flip_normal: true,
        material: 0,
    };
    assert_eq!(xy.bounding_box(s(0.5), s(1.5)), bb((0.0, 3.0, 0.5), (2.0, 4.0, 1.5)));
    let yz = Rect {
        a: Axes::YZ { x: s(1.0), y: pair(0.0, 2.0), z: pair(3.0, 4.0) },
        flip_normal: true,
        material: 0,
    };
    assert_eq!(yz.bounding_box(s(0.5), s(1.5)), bb((0.5, 0.0, 3.0), (1.5, 2.0, 4.0)));
}

#[test]
fn cuboid_has_six_faces() {
    let cuboid = Cuboid::new(v(1.0, 2.0, 3.0), v(4.0, 5.0, 6.0), 7);
    let x = pair(1.0, 4.0);
    let y = pair(2.0, 5.0);
    let z = pair(3.0, 6.0);
    let expected = vec![
        Rect { a: Axes::XY { x, y, z: s(6.0) }, flip_normal: false, material: 7 },
        Rect { a: Axes::XY { x, y, z: s(3.0) }, flip_normal: true, material: 7 },
        Rect { a: Axes::XZ { x, y: s(5.0), z }, flip_normal: false, material: 7 },
        Rect { a: Axes::XZ { x, y: s(2.0), z }, flip_normal: true, material: 7 },
        Rect { a: Axes::YZ { x: s(4.0), y, z }, flip_normal: false, material: 7 },
        Rect { a: Axes::YZ { x: s(1.0), y, z }, flip_normal: true, material: 7 },
    ];
    assert_eq!(cuboid.faces, expected);
    assert_eq!(cuboid.bounding_box(), bb((1.0, 2.0, 3.0), (4.0, 5.0, 6.0)));
}

#[test]
fn cuboid_is_hit_on_its_nearest_face() {
    let cuboid = Cuboid::new(v(-1.0, -1.0, -1.0), v(1.0, 1.0, 1.0), 0);
    let mut best: Option<(f32, usize)> = None;
    for (k, face) in cuboid.faces.iter().enumerate() {
        let limit = best.map_or(f32::MAX, |b| b.0);
        if let Some((t, _, _)) = rect_hit(face, [0.0, 0.0, 5.0], [0.0, 0.0, -1.0], 0.001, limit) {
            best = Some((t, k));
        }
    }
    assert_eq!(best, Some((4.0, 0)));
    assert_eq!(cuboid.faces[0].normal(), v(0.0, 0.0, 1.0));
}

#[test]
fn rotation_is_inverted_by_transposing() {
    let m = RotationMatrix { r0: v(1.0, 2.0, 3.0), r1: v(4.0, 5.0, 6.0), r2: v(7.0, 8.0, 9.0) };
    let t = m.invert();
    assert_eq!(t.r0, v(1.0, 4.0, 7.0));
    assert_eq!(t.r1, v(2.0, 5.0, 8.0));
    assert_eq!(t.r2, v(3.0, 6.0, 9.0));
    assert_eq!(t.invert(), m);
}

#[test]
fn corners_of_a_box() {
    let c = corners(&bb((1.0, 2.0, 3.0), (4.0, 5.0, 6.0)));
    assert_eq!(
        c,
        vec![
            v(1.0, 2.0, 3.0),
            v(1.0, 2.0, 6.0),
            v(1.0, 5.0, 3.0),
            v(1.0, 5.0, 6.0),
            v(4.0, 2.0, 3.0),
            v(4.0, 2.0, 6.0),
            v(4.0, 5.0, 3.0),
            v(4.0, 5.0, 6.0),
        ]
    );
}

#[test]
fn box_around_the_corners_of_a_box_is_the_box() {
    let b = bb((1.0, -2.0, 3.0), (4.0, 5.0, 6.0));
    assert_eq!(bounding_points(&corners(&b)), b);
}

#[test]
fn box_around_rotated_corners() {
    // A quarter turn about the z axis: (x, y, z) goes to (-y, x, z).
    let b = bb((1.0, 2.0, 3.0), (4.0, 6.0, 5.0));
    let rotated: Vec<Vec3> =
        corners(&b).iter().map(|p| v(-f(p.y()), f(p.x()), f(p.z()))).collect();
    assert_eq!(bounding_points(&rotated), bb((-6.0, 1.0, 3.0), (-2.0, 4.0, 5.0)));
}

#[test]
fn box_around_no_point_is_inside_out() {
    let none = bounding_points(&Vec::new());
    assert_eq!(none, bb((f32::MAX, f32::MAX, f32::MAX), (-f32::MAX, -f32::MAX, -f32::MAX)));
    let one = grow(&none, &v(1.0, 2.0, 3.0));
    assert_eq!(one, bb((1.0, 2.0, 3.0), (1.0, 2.0, 3.0)));
}

#[test]
fn span_inside_a_medium_is_clamped_to_the_range() {
    let span = span_inside(s(2.0), s(6.0), s(0.001), s(f32::MAX)).unwrap();
    assert_eq!(span, Interval { lo: s(2.0), hi: s(6.0) });
    let span = span_inside(s(2.0), s(6.0), s(3.0), s(5.0)).unwrap();
    assert_eq!(span, Interval { lo: s(3.0), hi: s(5.0) });
}

#[test]
fn span_inside_a_medium_starts_at_the_origin() {
    // The ray starts inside the boundary.
    let span = span_inside(s(-4.0), s(6.0), s(-f32::MAX), s(f32::MAX)).unwrap();
    assert_eq!((f(span.lo), f(span.hi)), (0.0, 6.0));
    let span = span_inside(s(-4.0), s(6.0), s(0.001), s(f32::MAX)).unwrap();
    assert_eq!((f(span.lo), f(span.hi)), (0.001, 6.0));
}

#[test]
fn span_outside_the_range_is_none() {
    assert_eq!(span_inside(s(2.0), s(6.0), s(6.0), s(9.0)), None);
    assert_eq!(span_inside(s(2.0), s(6.0), s(7.0), s(9.0)), None);
    assert_eq!(span_inside(s(2.0), s(6.0), s(0.0), s(2.0)), None);
    assert_eq!(span_inside(s(2.0), s(6.0), s(0.0), s(1.0)), None);
}
