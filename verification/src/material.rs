//! Materials: whether and where a ray goes on from a surface.

use crate::hitable::HitRecord;
use crate::ray::Ray;
use crate::scalar::{Scalar, ONE_BITS};
use crate::texture::Texture;
use crate::vec3::Vec3;
use vstd::prelude::*;

verus! {

/// A ray that leaves a surface, and the colour by which the light that
/// comes back along it is weakened.
#[derive(Clone, Copy, Debug, PartialEq, Eq, Structural)]
pub struct Scatter {
    pub att: Vec3,
    pub ray: Ray,
}

/// What a surface is made of.
#[derive(Debug)]
#[allow(inconsistent_fields)]
pub enum Material {
    /// A matt surface with the colour of a texture.
    Diffuse { albedo: Texture },
    /// A mirror of the colour `albedo`, the less sharp the greater `fuzz`.
    Metal { albedo: Vec3, fuzz: Scalar },
    /// Clear glass with the refractive index `ref_index`.
    Dielectric { ref_index: Scalar },
    /// A light with the colour of a texture.
    DiffuseLight { emit: Texture },
    /// A medium that sends light on in any direction.
    Isotropic { albedo: Texture },
}

impl Clone for Material {
    /// A copy of the material, with a copy of its texture.
    fn clone(&self) -> (r: Material)
        ensures
            self.same_as(r),
    {
        match self {
            Material::Diffuse { albedo } => Material::Diffuse { albedo: albedo.clone() },
            Material::Metal { albedo, fuzz } => Material::Metal { albedo: *albedo, fuzz: *fuzz },
            Material::Dielectric { ref_index } => Material::Dielectric { ref_index: *ref_index },
            Material::DiffuseLight { emit } => Material::DiffuseLight { emit: emit.clone() },
            Material::Isotropic { albedo } => Material::Isotropic { albedo: albedo.clone() },
        }
    }
}

impl Material {
    /// Whether two materials are the same: of the same kind, with the same
    /// numbers and with textures that show the same.
    pub open spec fn same_as(self, other: Material) -> bool {
        match (self, other) {
            (Material::Diffuse { albedo: a }, Material::Diffuse { albedo: b }) => a.same_as(b),
            (
                Material::Metal { albedo: albedo_a, fuzz: fuzz_a },
                Material::Metal { albedo: albedo_b, fuzz: fuzz_b },
            ) => albedo_a == albedo_b && fuzz_a == fuzz_b,
            (Material::Dielectric { ref_index: a }, Material::Dielectric { ref_index: b }) => a
                == b,
            (Material::DiffuseLight { emit: a }, Material::DiffuseLight { emit: b }) => a.same_as(
                b,
            ),
            (Material::Isotropic { albedo: a }, Material::Isotropic { albedo: b }) => a.same_as(b),
            _ => false,
        }
    }

    /// Whether a ray can go on from this material. A light sends none on.
    pub open spec fn scatters_spec(self) -> bool {
        !(self is DiffuseLight)
    }

    /// The texture whose colour the material gives off by itself: that of
    /// a light, and none for any other material, which gives off no light.
    pub open spec fn emitter_spec(self) -> Option<Texture> {
        match self {
            Material::DiffuseLight { emit } => Some(emit),
            _ => None,
        }
    }

    /// Whether a ray can go on from this material.
    pub fn scatters(&self) -> (r: bool)
        ensures
            r == self.scatters_spec(),
            r == (self.emitter_spec() is None),
    {
        match self {
            Material::DiffuseLight { .. } => false,
            _ => true,
        }
    }

    /// The texture of the light that the material gives off, if it gives
    /// off any.
    pub fn emitter(&self) -> (r: Option<&Texture>)
        ensures
            r is Some == self.emitter_spec() is Some,
            r is Some ==> *r.unwrap() == self.emitter_spec().unwrap(),
    {
        match self {
            Material::DiffuseLight { emit } => Some(emit),
            _ => None,
        }
    }
}

/// The colour that a material without a light gives off: black.
pub fn no_emission() -> (r: Vec3)
    ensures
        r.e0.bits == 0 && r.e1.bits == 0 && r.e2.bits == 0,
{
    Vec3::default()
}

/// Whether a ray leaves the glass at the surface that it hits, and does
/// not enter it: it runs along the normal, so that `facing`, the product of
/// its direction and the normal, is positive.
pub fn exiting(facing: Scalar) -> (r: bool)
    ensures
        r == (Scalar { bits: 0 }).lt_spec(facing),
{
    facing.gt(Scalar::zero())
}

/// Whether a ray is refracted: the discriminant of the law of refraction
/// is positive. Where it is not, the ray is reflected wholly.
pub fn refracts(discriminant: Scalar) -> (r: bool)
    ensures
        r == (Scalar { bits: 0 }).lt_spec(discriminant),
{
    discriminant.gt(Scalar::zero())
}

/// The normal that points against the incoming ray: the opposite of
/// `normal` where `facing`, the product of the ray's direction and
/// `normal`, is positive, and `normal` itself otherwise.
pub open spec fn outward_normal_spec(facing: Scalar, normal: Vec3) -> Vec3 {
    if (Scalar { bits: 0 }).lt_spec(facing) {
        normal.neg_spec()
    } else {
        normal
    }
}

/// The normal of a glass surface on the side from which the ray comes.
pub fn outward_normal(facing: Scalar, normal: Vec3) -> (r: Vec3)
    ensures
        r == outward_normal_spec(facing, normal),
{
    if exiting(facing) {
        normal.neg()
    } else {
        normal
    }
}

/// How a mirror sends a ray on: in the direction `reflected`, from the
/// point of the hit and weakened by `albedo`, if that direction points away
/// from the surface, which it does where `facing`, its product with the
/// normal, is positive; else not at all.
pub open spec fn scatter_metal_spec(
    rec: HitRecord,
    albedo: Vec3,
    reflected: Vec3,
    facing: Scalar,
) -> Option<Scatter> {
    if (Scalar { bits: 0 }).lt_spec(facing) {
        Some(Scatter { att: albedo, ray: Ray { origin: rec.p, direction: reflected } })
    } else {
        None
    }
}

/// The ray that a mirror sends on, if it sends one on.
pub fn scatter_metal(rec: &HitRecord, albedo: &Vec3, reflected: Vec3, facing: Scalar) -> (r: Option<
    Scatter,
>)
    ensures
        r == scatter_metal_spec(*rec, *albedo, reflected, facing),
        r is Some <==> (Scalar { bits: 0 }).lt_spec(facing),
        r is Some ==> r.unwrap().att == *albedo && r.unwrap().ray.direction == reflected
            && r.unwrap().ray.origin == rec.p,
{
    if facing.gt(Scalar::zero()) {
        Some(Scatter { att: *albedo, ray: Ray::new(rec.p, reflected) })
    } else {
        None
    }
}

/// The chance with which glass reflects a ray: `reflectance` where the ray
/// can be refracted, and 1 where it cannot.
pub open spec fn reflect_probability(refracted: Option<Vec3>, reflectance: Scalar) -> Scalar {
    if refracted is Some {
        reflectance
    } else {
        Scalar { bits: ONE_BITS }
    }
}

/// How glass sends a ray on: always, from the point of the hit and not
/// weakened. The ray is reflected where it cannot be refracted, and where
/// `sample` is below the reflectance; else it is refracted.
pub open spec fn scatter_dielectric_spec(
    rec: HitRecord,
    reflected: Vec3,
    refracted: Option<Vec3>,
    reflectance: Scalar,
    sample: Scalar,
) -> Scatter {
    let one = Scalar { bits: ONE_BITS };
    let direction = if refracted is None || sample.lt_spec(reflectance) {
        reflected
    } else {
        refracted.unwrap()
    };
    Scatter { att: Vec3 { e0: one, e1: one, e2: one }, ray: Ray { origin: rec.p, direction } }
}

/// The ray that glass sends on. `sample` is a random number from 0 up to,
/// but not including, 1.
pub fn scatter_dielectric(
    rec: &HitRecord,
    reflected: Vec3,
    refracted: Option<Vec3>,
    reflectance: Scalar,
    sample: Scalar,
) -> (r: Scatter)
    ensures
        r == scatter_dielectric_spec(*rec, reflected, refracted, reflectance, sample),
        r.att.e0.bits == ONE_BITS && r.att.e1.bits == ONE_BITS && r.att.e2.bits == ONE_BITS,
        r.ray.origin == rec.p,
        refracted is None ==> r.ray.direction == reflected,
        sample.lt_spec(Scalar { bits: ONE_BITS }) ==> (r.ray.direction == reflected
            <== sample.lt_spec(reflect_probability(refracted, reflectance))),
{
    let one = Scalar::one();
    let direction = match refracted {
        Some(through) => if sample.lt(reflectance) {
            reflected
        } else {
            through
        },
        None => reflected,
    };
    Scatter { att: Vec3::new(one, one, one), ray: Ray::new(rec.p, direction) }
}

/// How a matt surface or a medium sends a ray on: always, from the point
/// of the hit, in the direction that was drawn for it, and weakened by the
/// colour of its texture at the hit.
pub fn scatter_diffuse(rec: &HitRecord, attenuation: Vec3, direction: Vec3) -> (r: Scatter)
    ensures
        r == (Scatter { att: attenuation, ray: Ray { origin: rec.p, direction } }),
{
    Scatter { att: attenuation, ray: Ray::new(rec.p, direction) }
}

} // verus!
