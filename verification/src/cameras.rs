//! Cameras: field-of-view / focal-length model.

use vstd::prelude::*;
use crate::fixed::{
    fmul, fp_mul, lemma_fmul_bound, lemma_mul_abs_bound, lemma_mul_sign, sabs, SCALE,
};
use crate::geometry::MAX_COORD;
use crate::vector::{bounded3, Vector3};
use vstd::arithmetic::div_mod::lemma_div_pos_is_pos;

verus! {

/// Largest accepted tangent of half the field of view (sixteen in fixed
/// point, a view angle just short of a half turn).
pub const TAN_MAX: i64 = 0x10_0000;

/// Largest accepted focal length (2048 units in fixed point).
pub const FOCAL_MAX: i64 = 0x800_0000;

/// A camera looking down the negative principal axis from its origin.
///
/// The field of view enters as the tangent of half the vertical view angle,
/// as a fixed-point value: trigonometry stays with the caller, the render
/// pipeline itself is exact integer arithmetic.
pub struct Camera {
    pub tan_half_fov: i64,
    pub focal_length: i64,
    pub origin: Vector3,
}

/// Well-formed: view angle and focal length positive and bounded, origin
/// within scene bounds.
pub open spec fn wf_camera(c: Camera) -> bool {
    0 <= c.tan_half_fov <= TAN_MAX && 1 <= c.focal_length <= FOCAL_MAX && bounded3(
        c.origin@,
        MAX_COORD as int,
    )
}

impl Camera {
    /// A camera without an explicit origin: it looks from the world origin.
    pub fn new(tan_half_fov: i64, focal_length: i64) -> (r: Camera)
        ensures
            r.tan_half_fov == tan_half_fov,
            r.focal_length == focal_length,
            r.origin == (Vector3 { x: 0, y: 0, z: 0 }),
    {
        Camera { tan_half_fov, focal_length, origin: Vector3::new(0, 0, 0) }
    }

    /// The height of the focal plane: `2 * focal_length * tan(fov / 2)`.
    pub fn focal_plane_height(&self) -> (r: i64)
        requires
            wf_camera(*self),
        ensures
            r as int == fmul(self.tan_half_fov as int, 2 * self.focal_length),
            0 <= r <= 0x1_0000_0000,
    {
        proof {
            lemma_mul_abs_bound(
                self.tan_half_fov as int,
                2 * self.focal_length,
                TAN_MAX as int,
                2 * FOCAL_MAX as int,
            );
            lemma_fmul_bound(
                self.tan_half_fov as int,
                2 * self.focal_length,
                TAN_MAX as int,
                2 * FOCAL_MAX as int,
            );
            lemma_mul_sign(self.tan_half_fov as int, 2 * self.focal_length);
            lemma_div_pos_is_pos(
                sabs(self.tan_half_fov as int * (2 * self.focal_length)),
                SCALE as int,
            );
        }
        fp_mul(self.tan_half_fov, 2 * self.focal_length)
    }
}

} // verus!
