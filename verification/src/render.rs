//! The path of a ray through the scene, step by step, and the place of a
//! pixel in the picture.

use crate::scalar::{Scalar, ONE_BITS};
use crate::vec3::Vec3;
use vstd::prelude::*;

verus! {

/// Number of surfaces after which a path is cut off.
pub const MAX_DEPTH: u32 = 64;

/// Size of the picture, samples per pixel, and the file it goes to.
#[derive(Debug)]
pub struct RenderParams {
    pub nx: u32,
    pub ny: u32,
    pub ns: usize,
    pub filename: String,
}

/// What a ray sees that leaves the scene.
#[derive(Clone, Copy, Debug, PartialEq, Eq, Structural)]
pub enum Background {
    /// One colour in every direction.
    Color(Vec3),
    /// A blend of two colours by the height of the ray's direction.
    BlendY(Vec3, Vec3),
}

impl Background {
    /// The colour of a background that has one colour only.
    pub open spec fn solid_spec(self) -> Option<Vec3> {
        match self {
            Background::Color(c) => Some(c),
            Background::BlendY(_, _) => None,
        }
    }

    /// The colour that every ray sees, where the background has one colour
    /// only; none for a blend, whose colour depends on the ray.
    pub fn solid(&self) -> (c: Option<Vec3>)
        ensures
            c == self.solid_spec(),
    {
        match self {
            Background::Color(c) => Some(*c),
            Background::BlendY(_, _) => None,
        }
    }
}

/// What a path contributes at one step.
#[derive(Clone, Copy, Debug, PartialEq, Eq, Structural)]
pub enum PathStep {
    /// The ray hit nothing: the path ends with the colour of the
    /// background.
    Background,
    /// The ray hit a surface, but the path is too long: it ends in black.
    Cutoff,
    /// The ray hit a surface: the light of the surface counts, and the
    /// path goes on if the surface scatters the ray.
    Shade,
}

/// The step of a path at `depth` surfaces from the eye.
pub open spec fn path_step_spec(hit: bool, depth: u32) -> PathStep {
    if !hit {
        PathStep::Background
    } else if depth < MAX_DEPTH {
        PathStep::Shade
    } else {
        PathStep::Cutoff
    }
}

/// What the path does after its ray was tried against the scene: `hit`
/// says whether it met a surface, `depth` how many surfaces the path has
/// behind it.
pub fn path_step(hit: bool, depth: u32) -> (r: PathStep)
    ensures
        r == path_step_spec(hit, depth),
        !hit ==> r == PathStep::Background,
        r == PathStep::Shade ==> depth + 1 <= MAX_DEPTH,
{
    if !hit {
        PathStep::Background
    } else if depth < MAX_DEPTH {
        PathStep::Shade
    } else {
        PathStep::Cutoff
    }
}

/// The row of the scene, counted upwards from the bottom, that stands in
/// row `j` of a picture of `ny` rows, counted downwards from the top.
pub open spec fn scene_row_spec(j: u32, ny: u32) -> int {
    ny - j - 1
}

/// The row of the scene that is drawn in row `j` of the picture.
pub fn scene_row(j: u32, ny: u32) -> (r: u32)
    requires
        j < ny,
    ensures
        r == scene_row_spec(j, ny),
        r < ny,
        scene_row_spec(r, ny) == j,
{
    ny - j - 1
}

/// A channel of a colour, held to the range from 0 to 1: a channel below 0
/// and one that is not a number become 0, a channel above 1 becomes 1.
pub open spec fn clamp_channel_spec(c: Scalar) -> Scalar {
    if c.is_nan() || c.lt_spec(Scalar { bits: 0 }) {
        Scalar { bits: 0 }
    } else if (Scalar { bits: ONE_BITS }).lt_spec(c) {
        Scalar { bits: ONE_BITS }
    } else {
        c
    }
}

/// A channel of a colour, held to the range from 0 to 1.
pub fn clamp_channel(c: Scalar) -> (r: Scalar)
    ensures
        r == clamp_channel_spec(c),
        (Scalar { bits: 0 }).le_spec(r) && r.le_spec(Scalar { bits: ONE_BITS }),
{
    if c.check_nan() || c.lt(Scalar::zero()) {
        Scalar::zero()
    } else if c.gt(Scalar::one()) {
        Scalar::one()
    } else {
        c
    }
}

/// A colour with each of its channels held to the range from 0 to 1, as it
/// has to be before it is made brighter by the gamma and scaled to bytes.
pub fn clamp_color(v: &Vec3) -> (r: Vec3)
    ensures
        r.e0 == clamp_channel_spec(v.e0),
        r.e1 == clamp_channel_spec(v.e1),
        r.e2 == clamp_channel_spec(v.e2),
{
    Vec3::new(clamp_channel(v.r()), clamp_channel(v.g()), clamp_channel(v.b()))
}

/// The three bytes of a pixel from the three channels of its colour, after
/// the colour was scaled to the range of a byte: each channel is rounded to
/// the nearest whole number; what lies below 0 or is not a number becomes 0,
/// and what lies above 255 becomes 255.
pub fn convert_rgb_u8(scaled: &Vec3) -> (rgb: [u8; 3])
    ensures
        rgb@.len() == 3,
        rgb@[0] == scaled.e0.to_byte_spec(),
        rgb@[1] == scaled.e1.to_byte_spec(),
        rgb@[2] == scaled.e2.to_byte_spec(),
{
    [scaled.r().to_byte(), scaled.g().to_byte(), scaled.b().to_byte()]
}

} // verus!
