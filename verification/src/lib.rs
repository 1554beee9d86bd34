//! Verified core of a path tracer.
//!
//! Every real number is carried as the bit pattern of an IEEE-754
//! single-precision value ([`scalar::Scalar`]). The library owns the parts of
//! the renderer that compare, select and arrange such values: the bounding
//! boxes, the bounding volume hierarchy, the closest-hit selection, the
//! decisions of each primitive and material, the noise lattice and the pixel
//! lookup. The arithmetic on the values themselves is done by the caller.

pub mod scalar;
pub mod convert;
pub mod vec3;
pub mod ray;
pub mod boundingbox;
pub mod bvhnode;
pub mod hitable;
pub mod bvhquery;
pub mod sphere;
pub mod rect;
pub mod transform;
pub mod volume;
pub mod texture;
pub mod material;
pub mod render;
