//! Surface materials for the shading model.

use vstd::prelude::*;
use crate::fixed::sabs;
use crate::lighting::Color;

verus! {

/// Largest magnitude accepted for a material coefficient (256 in fixed
/// point); keeps every shading term comfortably inside `i64`.
pub const COEF_MAX: i64 = 0x100_0000;

/// A material: how a surface answers the lights.
///
/// `diffusion` weighs the Lambertian term, `specularity` the highlight term,
/// and `shininess` is the highlight exponent.  `reflectance` is a declared
/// but dormant capability: shading does not consume it.
#[derive(Clone, Copy)]
pub struct Material {
    /// Base color of the surface.
    pub color: Color,
    /// Weight of the diffuse (Lambertian) term, fixed point.
    pub diffusion: i64,
    /// Weight of the specular (highlight) term, fixed point.
    pub specularity: i64,
    /// Exponent of the specular term.
    pub shininess: u32,
    /// Unused by shading; kept for scenes that declare it.
    pub reflectance: i64,
}

/// Coefficients small enough for exact shading arithmetic.
pub open spec fn wf_material(m: Material) -> bool {
    sabs(m.diffusion as int) <= COEF_MAX as int && sabs(m.specularity as int) <= COEF_MAX as int
}

} // verus!
