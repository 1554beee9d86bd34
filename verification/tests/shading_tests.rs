use raytrace::hitable::HitRecord;
use raytrace::material::{
    exiting, no_emission, outward_normal, refracts, scatter_dielectric, scatter_diffuse,
    scatter_metal, Material,
};
use raytrace::ray::Ray;
use raytrace::render::{path_step, scene_row, Background, PathStep, MAX_DEPTH};
use raytrace::scalar::Scalar;
use raytrace::texture::Texture;
use raytrace::vec3::Vec3;

fn s(x: f32) -> Scalar {
    Scalar::from_bits(x.to_bits())
}

fn f(x: Scalar) -> f32 {
    f32::from_bits(x.to_bits())
}

fn v(x: f32, y: f32, z: f32) -> Vec3 {
    Vec3::new(s(x), s(y), s(z))
}

fn rec_at(p: Vec3, n: Vec3) -> HitRecord {
    HitRecord { t: s(1.0), p, n, u: s(0.0), v: s(0.0), material: 0 }
}

fn dot(a: [f32; 3], b: [f32; 3]) -> f32 {
    a[0] * b[0] + a[1] * b[1] + a[2] * b[2]
}

fn reflect(d: [f32; 3], n: [f32; 3]) -> [f32; 3] {
    let k = 2.0 * dot(d, n);
    [d[0] - k * n[0], d[1] - k * n[1], d[2] - k * n[2]]
}

fn schlick(cosine: f32, ref_index: f32) -> f32 {
    let r0 = (1.0 - ref_index) / (1.0 + ref_index);
    let r0 = r0 * r0;
    r0 + (1.0 - r0) * (1.0 - cosine).powi(5)
}

#[test]
fn mirror_sends_the_ray_straight_back() {
    // A ray straight into a flat mirror, no fuzz.
    let n = [0.0, 0.0, 1.0];
    let d = [0.0, 0.0, -1.0];
    let reflected = reflect(d, n);
    let albedo = v(0.8, 0.6, 0.2);
    let rec = rec_at(v(1.0, 2.0, 0.0), v(n[0], n[1], n[2]));
    let out = scatter_metal(
        &rec,
        &albedo,
        v(reflected[0], reflected[1], reflected[2]),
        s(dot(reflected, n)),
    )
    .unwrap();
    assert_eq!(out.att, albedo);
    assert_eq!(out.ray.direction, v(0.0, 0.0, 1.0));
    assert_eq!(out.ray.origin, v(1.0, 2.0, 0.0));
}

#[test]
fn mirror_absorbs_a_ray_that_points_into_the_surface() {
    let rec = rec_at(v(0.0, 0.0, 0.0), v(0.0, 0.0, 1.0));
    let albedo = v(0.8, 0.6, 0.2);
    assert_eq!(scatter_metal(&rec, &albedo, v(1.0, 0.0, -0.1), s(-0.1)), None);
    assert_eq!(scatter_metal(&rec, &albedo, v(1.0, 0.0, 0.0), s(0.0)), None);
    assert_eq!(scatter_metal(&rec, &albedo, v(1.0, 0.0, 0.0), s(f32::NAN)), None);
    assert!(scatter_metal(&rec, &albedo, v(1.0, 0.0, 0.1), s(0.1)).is_some());
}

#[test]
fn glass_mostly_refracts_a_ray_that_hits_it_straight_on() {
    let reflectance = schlick(1.0, 1.5);
    assert!((reflectance - 0.04).abs() < 1.0e-6);
    let rec = rec_at(v(0.0, 0.0, 1.0), v(0.0, 0.0, 1.0));
    let reflected = v(0.0, 0.0, 1.0);
    let refracted = v(0.0, 0.0, -1.0);
    let mut through = 0;
    for k in 0..100 {
        let sample = k as f32 / 100.0;
        let out = scatter_dielectric(&rec, reflected, Some(refracted), s(reflectance), s(sample));
        assert_eq!(out.att, v(1.0, 1.0, 1.0));
        assert_eq!(out.ray.origin, v(0.0, 0.0, 1.0));
        if out.ray.direction == refracted {
            through += 1;
        } else {
            assert_eq!(out.ray.direction, reflected);
        }
    }
    // The samples 0.00 to 0.04 lie below the reflectance.
    assert_eq!(through, 95);
}

#[test]
fn glass_reflects_where_it_cannot_refract() {
    let rec = rec_at(v(0.0, 0.0, 1.0), v(0.0, 0.0, 1.0));
    let reflected = v(0.0, 1.0, 1.0);
    for sample in [0.0f32, 0.5, 0.999, 1.0, f32::NAN] {
        let out = scatter_dielectric(&rec, reflected, None, s(0.04), s(sample));
        assert_eq!(out.ray.direction, reflected);
        assert_eq!(out.att, v(1.0, 1.0, 1.0));
    }
}

#[test]
fn glass_reflects_below_the_reflectance_only() {
    let rec = rec_at(v(0.0, 0.0, 1.0), v(0.0, 0.0, 1.0));
    let reflected = v(0.0, 0.0, 1.0);
    let refracted = v(0.0, 0.0, -1.0);
    let out = scatter_dielectric(&rec, reflected, Some(refracted), s(0.25), s(0.2));
    assert_eq!(out.ray.direction, reflected);
    let out = scatter_dielectric(&rec, reflected, Some(refracted), s(0.25), s(0.25));
    assert_eq!(out.ray.direction, refracted);
    let out = scatter_dielectric(&rec, reflected, Some(refracted), s(0.25), s(0.9));
    assert_eq!(out.ray.direction, refracted);
}

#[test]
fn outward_normal_faces_the_incoming_ray() {
    let n = v(0.0, 0.0, 1.0);
    assert_eq!(outward_normal(s(0.5), n), v(-0.0, -0.0, -1.0));
    assert_eq!(outward_normal(s(-0.5), n), n);
    assert_eq!(outward_normal(s(0.0), n), n);
}

#[test]
fn matt_surface_scatters_from_the_hit() {
    let rec = rec_at(v(1.0, 2.0, 3.0), v(0.0, 0.0, 1.0));
    let out = scatter_diffuse(&rec, v(0.5, 0.5, 0.5), v(0.1, 0.2, 1.3));
    assert_eq!(out.att, v(0.5, 0.5, 0.5));
    assert_eq!(out.ray, Ray::new(v(1.0, 2.0, 3.0), v(0.1, 0.2, 1.3)));
}

#[test]
fn only_a_light_emits_and_only_a_light_does_not_scatter() {
    let white = || Texture::Constant { color: v(1.0, 1.0, 1.0) };
    let light = Material::DiffuseLight { emit: Texture::Constant { color: v(4.0, 4.0, 4.0) } };
    assert!(!light.scatters());
    match light.emitter() {
        Some(Texture::Constant { color }) => assert_eq!(*color, v(4.0, 4.0, 4.0)),
        _ => panic!("a light without a texture"),
    }
    let others = [
        Material::Diffuse { albedo: white() },
        Material::Metal { albedo: v(1.0, 1.0, 1.0), fuzz: s(0.0) },
        Material::Dielectric { ref_index: s(1.5) },
        Material::Isotropic { albedo: white() },
    ];
    for m in others.iter() {
        assert!(m.scatters());
        assert!(m.emitter().is_none());
    }
    assert_eq!(no_emission(), v(0.0, 0.0, 0.0));
}

#[test]
fn ray_that_hits_nothing_sees_the_background() {
    for depth in [0, 1, 63, 64, 65, u32::MAX] {
        assert_eq!(path_step(false, depth), PathStep::Background);
    }
    let sky = Background::Color(v(0.1, 0.2, 0.3));
    assert_eq!(sky.solid(), Some(v(0.1, 0.2, 0.3)));
    let blend = Background::BlendY(v(1.0, 1.0, 1.0), v(0.5, 0.7, 1.0));
    assert_eq!(blend.solid(), None);
}

#[test]
fn path_is_cut_off_at_the_depth_limit() {
    assert_eq!(MAX_DEPTH, 64);
    assert_eq!(path_step(true, 0), PathStep::Shade);
    assert_eq!(path_step(true, 63), PathStep::Shade);
    assert_eq!(path_step(true, 64), PathStep::Cutoff);
    assert_eq!(path_step(true, u32::MAX), PathStep::Cutoff);
}

#[test]
fn black_sphere_before_black_background_is_black() {
    // One surface: a matt black sphere; the path is cut off behind it or
    // goes on into the black background.
    let background = Background::Color(v(0.0, 0.0, 0.0));
    let albedo = [0.0f32, 0.0, 0.0];
    let mut colour = [0.0f32, 0.0, 0.0];
    let mut weight = [1.0f32, 1.0, 1.0];
    let mut depth = 0;
    let hits = [true, false];
    for &hit in hits.iter() {
        match path_step(hit, depth) {
            PathStep::Background => {
                let c = background.solid().unwrap();
                for k in 0..3 {
                    colour[k] += weight[k] * f(c.i(k));
                }
                break;
            }
            PathStep::Cutoff => break,
            PathStep::Shade => {
                let emitted = no_emission();
                for k in 0..3 {
                    colour[k] += weight[k] * f(emitted.i(k));
                    weight[k] *= albedo[k];
                }
                depth += 1;
            }
        }
    }
    assert_eq!(colour, [0.0, 0.0, 0.0]);
}

#[test]
fn picture_rows_run_downwards() {
    assert_eq!(scene_row(0, 200), 199);
    assert_eq!(scene_row(199, 200), 0);
    assert_eq!(scene_row(57, 200), 142);
    assert_eq!(scene_row(scene_row(57, 200), 200), 57);
    assert_eq!(scene_row(0, 1), 0);
}

#[test]
fn ray_leaves_the_glass_where_it_runs_along_the_normal() {
    assert!(exiting(s(0.5)));
    assert!(exiting(s(f32::INFINITY)));
    assert!(!exiting(s(0.0)));
    assert!(!exiting(s(-0.0)));
    assert!(!exiting(s(-0.5)));
    assert!(!exiting(s(f32::NAN)));
}

#[test]
fn ray_is_refracted_only_with_a_positive_discriminant() {
    // From glass into air at a flat angle the discriminant is negative.
    let ratio = 1.5f32;
    let cos = 0.5f32;
    let d = 1.0 - ratio * ratio * (1.0 - cos * cos);
    assert!(d < 0.0);
    assert!(!refracts(s(d)));
    // Straight on it is positive.
    let d = 1.0 - ratio * ratio * (1.0 - 1.0 * 1.0);
    assert_eq!(d, 1.0);
    assert!(refracts(s(d)));
    assert!(!refracts(s(0.0)));
    assert!(!refracts(s(f32::NAN)));
}

#[test]
fn copy_of_a_material_is_the_same_material() {
    let metal = Material::Metal { albedo: v(0.7, 0.6, 0.5), fuzz: s(0.1) };
    match metal.clone() {
        Material::Metal { albedo, fuzz } => {
            assert_eq!(albedo, v(0.7, 0.6, 0.5));
            assert_eq!(f(fuzz), 0.1);
        }
        _ => panic!("not a metal"),
    }
    let light = Material::DiffuseLight { emit: Texture::Constant { color: v(4.0, 4.0, 4.0) } };
    let copy = light.clone();
    assert!(!copy.scatters());
    match copy.emitter() {
        Some(Texture::Constant { color }) => assert_eq!(*color, v(4.0, 4.0, 4.0)),
        _ => panic!("a light without a texture"),
    }
    match (Material::Dielectric { ref_index: s(1.5) }).clone() {
        Material::Dielectric { ref_index } => assert_eq!(f(ref_index), 1.5),
        _ => panic!("not glass"),
    }
}
